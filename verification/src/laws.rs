//! The laws the layer is meant to uphold, each proved from the contracts of
//! the operations alone: what creation promises to lookup, what removal
//! leaves behind, what a reader gets back for what a writer put in, that
//! truncation settles after one application, and that directory listing
//! pages compose without loss or repetition.

use vstd::prelude::*;

use crate::content::spec_overlay;
use crate::store::Store;
use crate::types::{spec_block_count, FileAttr};

verus! {

/// After an object is created — its record entered under a fresh identifier
/// and its name written into the namespace, as `mknod` and `mkdir` ensure —
/// resolving that name finds exactly the created record: the attributes a
/// later `lookup` returns are the attributes creation returned.
pub proof fn lemma_create_then_lookup(
    pre: Store,
    post: Store,
    parent: u64,
    name: Seq<u8>,
    a: FileAttr,
)
    requires
        post.entry_map() =~= pre.entry_map().insert((parent, name), a.ino),
        post.inode_map() =~= pre.inode_map().insert(a.ino, a),
    ensures
        post.has_entry(parent, name),
        post.child_of(parent, name) == a.ino,
        post.has_inode(a.ino),
        post.inode_of(a.ino) == a,
{
    assert(post.entry_map().contains_key((parent, name)));
    assert(post.has_entry(parent, name));
    assert(post.entry_map()[(parent, name)] == a.ino);
    assert(post.child_of(parent, name) == post.entry_map()[(parent, name)]);
    assert(post.inode_map().contains_key(a.ino));
    assert(post.has_inode(a.ino));
    assert(post.inode_map()[a.ino] == a);
    assert(post.inode_of(a.ino) == post.inode_map()[a.ino]);
}

/// Unlinking the last link purges the file whole: once the inode record and
/// its content blocks are removed, as `unlink` ensures when the link count
/// reaches zero, the identifier resolves to nothing and no bytes remain —
/// a later read finds no inode, and the block store holds nothing for it.
pub proof fn lemma_unlink_last_purges(pre: Store, post: Store, ino: u64)
    requires
        post.inode_map() =~= pre.inode_map().remove(ino),
        post.content_map() =~= pre.content_map().remove(ino),
    ensures
        !post.has_inode(ino),
        !post.has_content(ino),
        post.file_bytes(ino) =~= Seq::<u8>::empty(),
{
    assert(!post.inode_map().contains_key(ino));
    if post.has_inode(ino) {
        assert(post.inode_map().contains_key(ino));
    }
    assert(!post.content_map().contains_key(ino));
    if post.has_content(ino) {
        assert(post.content_map().contains_key(ino));
    }
}

/// Write/read round trip: a file whose bytes carry `data` laid down at
/// offset zero — which is what the write path commits — answers a read of
/// `data.len()` bytes at offset zero with exactly `data`.
pub proof fn lemma_write_read_round_trip(st: Store, ino: u64, prev: Seq<u8>, data: Seq<u8>)
    requires
        data.len() > 0,
        data.len() <= u32::MAX,
        st.file_bytes(ino) =~= spec_overlay(prev, 0, data),
    ensures
        st.spec_read(ino, 0, data.len() as u32) =~= data,
{
    assert(st.file_bytes(ino).len() >= data.len());
    assert forall|i: int| 0 <= i < data.len() implies st.file_bytes(ino)[i] == data[i] by {}
}

/// Resizing is idempotent on the bytes: cutting or zero-extending to `s`
/// twice leaves what one application leaves.
pub proof fn lemma_resize_idempotent(b: Seq<u8>, s: int)
    requires
        0 <= s,
    ensures
        Store::spec_resize(Store::spec_resize(b, s), s) =~= Store::spec_resize(b, s),
{
}

/// Truncation idempotence over whole states: applying the truncation step —
/// content blocks resized, inode size and block count refreshed, as
/// `truncate_file` and the size arm of `setattr` ensure — a second time with
/// the same size leaves the record store exactly as the first left it.
pub proof fn lemma_truncate_idempotent(pre: Store, mid: Store, post: Store, ino: u64, s: u64)
    requires
        pre.wf(),
        mid.wf(),
        pre.has_inode(ino),
        mid.inode_map() =~= pre.inode_map().insert(
            ino,
            (FileAttr {
                size: s,
                blocks: spec_block_count(s) as u64,
                ..pre.inode_of(ino)
            }),
        ),
        s == 0 ==> mid.content_map() =~= pre.content_map().remove(ino),
        s > 0 ==> mid.content_map() =~= pre.content_map().insert(
            ino,
            Store::spec_resize(pre.file_bytes(ino), s as int),
        ),
        post.inode_map() =~= mid.inode_map().insert(
            ino,
            (FileAttr {
                size: s,
                blocks: spec_block_count(s) as u64,
                ..mid.inode_of(ino)
            }),
        ),
        s == 0 ==> post.content_map() =~= mid.content_map().remove(ino),
        s > 0 ==> post.content_map() =~= mid.content_map().insert(
            ino,
            Store::spec_resize(mid.file_bytes(ino), s as int),
        ),
    ensures
        post.inode_map() =~= mid.inode_map(),
        post.content_map() =~= mid.content_map(),
{
    assert(mid.inode_map().contains_key(ino));
    assert(mid.has_inode(ino));
    assert(mid.inode_map()[ino] == (FileAttr {
        size: s,
        blocks: spec_block_count(s) as u64,
        ..pre.inode_of(ino)
    }));
    assert(mid.inode_of(ino) == mid.inode_map()[ino]);
    if s > 0 {
        assert(mid.content_map().contains_key(ino));
        assert(mid.has_content(ino));
        assert(mid.content_map()[ino] == Store::spec_resize(pre.file_bytes(ino), s as int));
        assert(mid.content_of(ino) == mid.content_map()[ino]);
        assert(mid.file_bytes(ino) =~= Store::spec_resize(pre.file_bytes(ino), s as int));
        lemma_resize_idempotent(pre.file_bytes(ino), s as int);
        assert(Store::spec_resize(mid.file_bytes(ino), s as int) =~= mid.file_bytes(ino));
    }
}

/// Directory listing is exhaustive and non-duplicating: resuming from the
/// position carried by any yielded entry visits exactly the entries after
/// it, each once, whatever page size produced the cut.
pub proof fn lemma_list_resume(st: Store, dir: u64, i: int, k: int)
    requires
        0 <= i,
        0 <= k < st.spec_list_from(dir, i).len(),
    ensures
        st.spec_list_from(dir, st.spec_list_from(dir, i)[k].1 as int) =~= st.spec_list_from(
            dir,
            i,
        ).skip(k + 1),
    decreases st.entries@.len() - i,
{
    vstd::std_specs::vec::axiom_spec_len(&st.entries);
    let full = st.spec_list_from(dir, i);
    if i >= st.entries@.len() {
        assert(full.len() == 0);
    } else if st.entries@[i].parent == dir {
        let rest = st.spec_list_from(dir, i + 1);
        assert(full =~= seq![st.spec_entry_view(i)] + rest);
        if k == 0 {
            assert(full[0].1 == i + 1);
            assert(full.skip(1) =~= rest);
        } else {
            lemma_list_resume(st, dir, i + 1, k - 1);
            assert(full[k] == rest[k - 1]);
            assert(full.skip(k + 1) =~= rest.skip(k));
        }
    } else {
        assert(full =~= st.spec_list_from(dir, i + 1));
        lemma_list_resume(st, dir, i + 1, k);
    }
}

} // verus!
