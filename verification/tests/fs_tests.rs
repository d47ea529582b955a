use blockfs::driver::{FuseDriver, SetAttrRequest};
use blockfs::errors::FsError;
use blockfs::store::Store;
use blockfs::types::{FileAttr, FileKind, RequestInfo, TimeSpec};

const MODE_REGULAR: u32 = 0o100644;
const MODE_DIR: u32 = 0o040755;

fn req() -> RequestInfo {
    RequestInfo {
        uid: 1000,
        gid: 1000,
        now: TimeSpec { secs: 7, nanos: 0 },
    }
}

fn req_ids(uid: u32, gid: u32) -> RequestInfo {
    RequestInfo {
        uid,
        gid,
        now: TimeSpec { secs: 7, nanos: 0 },
    }
}

fn new_driver_with_root() -> FuseDriver {
    let mut driver = FuseDriver::new(Store::new());
    driver
        .ensure_root_exists(TimeSpec { secs: 1, nanos: 0 })
        .unwrap();
    driver
}

fn name(s: &str) -> Vec<u8> {
    s.as_bytes().to_vec()
}

#[test]
fn test_lookup() {
    let mut driver = FuseDriver::new(Store::new());
    driver
        .ensure_root_exists(TimeSpec { secs: 1, nanos: 0 })
        .unwrap();

    let node = driver
        .mknod(req_ids(1337, 1338), 1, name("foo.txt"), MODE_REGULAR, 0, 0)
        .unwrap();
    assert_eq!(node.uid, 1337);

    let attr = driver.lookup(1, &name("foo.txt")).unwrap();
    assert_eq!(attr.uid, 1337);
    assert_eq!(attr.gid, 1338);

    // Not found test
    let res = driver.lookup(1, &name("not_found.jpg"));
    assert_eq!(res, Err(FsError::NotFound));
}

#[test]
fn test_root_lazily_created() {
    let mut driver = FuseDriver::new(Store::new());
    assert_eq!(driver.getattr(1), Err(FsError::NotFound));
    driver
        .ensure_root_exists(TimeSpec { secs: 3, nanos: 9 })
        .unwrap();
    let root = driver.getattr(1).unwrap();
    assert_eq!(root.ino, 1);
    assert_eq!(root.kind, FileKind::Directory);
    assert_eq!(root.perm, 0o755);
    assert_eq!(root.nlink, 2);

    let created = driver
        .mknod(req_ids(1337, 1338), 1, name("foo.txt"), MODE_REGULAR, 0, 0)
        .unwrap();
    let found = driver.lookup(1, &name("foo.txt")).unwrap();
    assert_eq!(found, created);
    assert_eq!(found.uid, 1337);
    assert_eq!(found.gid, 1338);
    assert_eq!(driver.lookup(1, &name("missing.jpg")), Err(FsError::NotFound));
}

fn write_read_round_trip(n: usize) {
    let mut driver = new_driver_with_root();
    let attr = driver
        .mknod(req(), 1, name("data.bin"), MODE_REGULAR, 0, 0)
        .unwrap();
    let (fh, _) = driver.open(attr.ino, libc::O_RDWR).unwrap();
    let data: Vec<u8> = (0..n).map(|i| (i % 251) as u8).collect();
    assert_eq!(driver.write(fh, 0, &data), Ok(n as u32));
    driver.release(fh).unwrap();
    let back = driver.read(attr.ino, 0, n as u32).unwrap();
    assert_eq!(back, data);
    let refreshed = driver.getattr(attr.ino).unwrap();
    assert_eq!(refreshed.size, n as u64);
    assert_eq!(refreshed.blocks, (n as u64 + 511) / 512);
}

#[test]
fn test_round_trip_sub_block() {
    write_read_round_trip(100);
}

#[test]
fn test_round_trip_exactly_one_block() {
    write_read_round_trip(131072);
}

#[test]
fn test_round_trip_multi_block() {
    write_read_round_trip(300_000);
}

#[test]
fn test_sequential_writes_merge() {
    let mut driver = new_driver_with_root();
    let attr = driver
        .mknod(req(), 1, name("hello.txt"), MODE_REGULAR, 0, 0)
        .unwrap();
    let (fh, _) = driver.open(attr.ino, libc::O_WRONLY).unwrap();
    assert_eq!(driver.write(fh, 0, &name("hello")), Ok(5));
    assert_eq!(driver.write(fh, 5, &name(" world")), Ok(6));
    driver.release(fh).unwrap();
    let back = driver.read(attr.ino, 0, 11).unwrap();
    assert_eq!(back, name("hello world"));
}

#[test]
fn test_backward_seek_flushes_first_write() {
    let mut driver = new_driver_with_root();
    let attr = driver
        .mknod(req(), 1, name("seek.bin"), MODE_REGULAR, 0, 0)
        .unwrap();
    let (fh, _) = driver.open(attr.ino, libc::O_RDWR).unwrap();
    let first: Vec<u8> = vec![7u8; 10_000];
    assert_eq!(driver.write(fh, 0, &first), Ok(10_000));
    let second: Vec<u8> = vec![9u8; 5];
    assert_eq!(driver.write(fh, 0, &second), Ok(5));
    driver.release(fh).unwrap();
    let back = driver.read(attr.ino, 0, 10_000).unwrap();
    assert_eq!(back.len(), 10_000);
    assert_eq!(&back[0..5], &[9u8, 9, 9, 9, 9]);
    assert!(back[5..].iter().all(|b| *b == 7));
}

#[test]
fn test_unlink_last_link_purges_blocks() {
    let mut driver = new_driver_with_root();
    let attr = driver
        .mknod(req(), 1, name("gone.bin"), MODE_REGULAR, 0, 0)
        .unwrap();
    let (fh, _) = driver.open(attr.ino, libc::O_WRONLY).unwrap();
    driver.write(fh, 0, &vec![1u8; 4096]).unwrap();
    driver.release(fh).unwrap();
    driver.unlink(1, &name("gone.bin")).unwrap();
    assert_eq!(driver.getattr(attr.ino), Err(FsError::NotFound));
    assert_eq!(driver.read(attr.ino, 0, 4096), Err(FsError::NotFound));
}

#[test]
fn test_link_then_unlink_keeps_file() {
    let mut driver = new_driver_with_root();
    let attr = driver
        .mknod(req(), 1, name("a.txt"), MODE_REGULAR, 0, 0)
        .unwrap();
    let linked = driver.link(attr.ino, 1, name("b.txt")).unwrap();
    assert_eq!(linked.nlink, 2);
    driver.unlink(1, &name("a.txt")).unwrap();
    let still = driver.lookup(1, &name("b.txt")).unwrap();
    assert_eq!(still.ino, attr.ino);
    assert_eq!(still.nlink, 1);
    driver.unlink(1, &name("b.txt")).unwrap();
    assert_eq!(driver.getattr(attr.ino), Err(FsError::NotFound));
}

#[test]
fn test_truncate_idempotent() {
    let mut driver = new_driver_with_root();
    let attr = driver
        .mknod(req(), 1, name("t.bin"), MODE_REGULAR, 0, 0)
        .unwrap();
    let (fh, _) = driver.open(attr.ino, libc::O_WRONLY).unwrap();
    driver.write(fh, 0, &vec![5u8; 2000]).unwrap();
    driver.release(fh).unwrap();

    let patch = SetAttrRequest {
        size: Some(700),
        ..SetAttrRequest::none()
    };
    let once = driver.setattr(attr.ino, patch).unwrap();
    let read_once = driver.read(attr.ino, 0, 4000).unwrap();
    let twice = driver.setattr(attr.ino, patch).unwrap();
    let read_twice = driver.read(attr.ino, 0, 4000).unwrap();
    assert_eq!(once, twice);
    assert_eq!(read_once, read_twice);
    assert_eq!(once.size, 700);
    assert_eq!(once.blocks, 2);
    assert_eq!(read_once, vec![5u8; 700]);
}

#[test]
fn test_truncate_extends_with_zeroes() {
    let mut driver = new_driver_with_root();
    let attr = driver
        .mknod(req(), 1, name("grow.bin"), MODE_REGULAR, 0, 0)
        .unwrap();
    let (fh, _) = driver.open(attr.ino, libc::O_WRONLY).unwrap();
    driver.write(fh, 0, &vec![3u8; 4]).unwrap();
    driver.release(fh).unwrap();
    let patch = SetAttrRequest {
        size: Some(8),
        ..SetAttrRequest::none()
    };
    driver.setattr(attr.ino, patch).unwrap();
    let back = driver.read(attr.ino, 0, 8).unwrap();
    assert_eq!(back, vec![3, 3, 3, 3, 0, 0, 0, 0]);
}

#[test]
fn test_setattr_fields() {
    let mut driver = new_driver_with_root();
    let attr = driver
        .mknod(req(), 1, name("meta.txt"), MODE_REGULAR, 0, 0)
        .unwrap();
    let patch = SetAttrRequest {
        mode: Some(0o600),
        uid: Some(42),
        gid: Some(43),
        atime: Some(TimeSpec { secs: 11, nanos: 12 }),
        flags: Some(5),
        ..SetAttrRequest::none()
    };
    let out = driver.setattr(attr.ino, patch).unwrap();
    assert_eq!(out.perm, 0o600);
    assert_eq!(out.uid, 42);
    assert_eq!(out.gid, 43);
    assert_eq!(out.atime, TimeSpec { secs: 11, nanos: 12 });
    assert_eq!(out.flags, 5);
    assert_eq!(driver.getattr(attr.ino).unwrap(), out);
    assert_eq!(
        driver.setattr(999, patch),
        Err(FsError::NotFound)
    );
}

#[test]
fn test_readdir_paging_resumes_without_loss() {
    let mut driver = new_driver_with_root();
    for i in 0..5u32 {
        let file_name = format!("file{}", i);
        driver
            .mknod(req(), 1, file_name.into_bytes(), MODE_REGULAR, 0, 0)
            .unwrap();
    }
    let all = driver.readdir(1, 0, 100).unwrap();
    assert_eq!(all.len(), 5);

    // walk in pages of one entry, resuming from each yielded position
    let mut collected: Vec<(u64, Vec<u8>)> = Vec::new();
    let mut pos = 0u64;
    loop {
        let page = driver.readdir(1, pos, 1).unwrap();
        if page.is_empty() {
            break;
        }
        assert_eq!(page.len(), 1);
        pos = page[0].position;
        collected.push((page[0].ino, page[0].name.clone()));
    }
    let one_shot: Vec<(u64, Vec<u8>)> = all.iter().map(|e| (e.ino, e.name.clone())).collect();
    assert_eq!(collected, one_shot);

    // no duplicates
    for i in 0..collected.len() {
        for j in 0..i {
            assert_ne!(collected[i], collected[j]);
        }
    }
}

#[test]
fn test_rmdir_not_empty_then_success() {
    let mut driver = new_driver_with_root();
    let dir = driver
        .mkdir(req(), 1, name("sub"), MODE_DIR, 0)
        .unwrap();
    driver
        .mknod(req(), dir.ino, name("inner.txt"), MODE_REGULAR, 0, 0)
        .unwrap();
    assert_eq!(driver.rmdir(1, &name("sub")), Err(FsError::NotEmpty));
    driver.unlink(dir.ino, &name("inner.txt")).unwrap();
    assert_eq!(driver.rmdir(1, &name("sub")), Ok(()));
    assert_eq!(driver.lookup(1, &name("sub")), Err(FsError::NotFound));
}

#[test]
fn test_mknod_errors() {
    let mut driver = new_driver_with_root();
    assert_eq!(
        driver.mknod(req(), 1, name("x"), 0, 0, 0),
        Err(FsError::InvalidArgument)
    );
    driver
        .mknod(req(), 1, name("dup"), MODE_REGULAR, 0, 0)
        .unwrap();
    assert_eq!(
        driver.mknod(req(), 1, name("dup"), MODE_REGULAR, 0, 0),
        Err(FsError::AlreadyExists)
    );
}

#[test]
fn test_write_offset_too_large() {
    let mut driver = new_driver_with_root();
    let attr = driver
        .mknod(req(), 1, name("far.bin"), MODE_REGULAR, 0, 0)
        .unwrap();
    let (fh, _) = driver.open(attr.ino, libc::O_WRONLY).unwrap();
    let res = driver.write(fh, u64::MAX - 2, &vec![1u8; 8]);
    assert_eq!(res, Err(FsError::Overflow));
    driver.release(fh).unwrap();
}

#[test]
fn test_stale_handle_errors() {
    let mut driver = new_driver_with_root();
    let attr = driver
        .mknod(req(), 1, name("h.bin"), MODE_REGULAR, 0, 0)
        .unwrap();
    let (fh, _) = driver.open(attr.ino, libc::O_RDWR).unwrap();
    driver.release(fh).unwrap();
    assert_eq!(driver.release(fh), Err(FsError::NotFound));
    assert_eq!(driver.flush(fh), Err(FsError::NotFound));
    assert_eq!(driver.write(fh, 0, &vec![1u8]), Err(FsError::NotFound));
}

#[test]
fn test_handle_slot_reuse() {
    let mut driver = new_driver_with_root();
    let attr = driver
        .mknod(req(), 1, name("r.bin"), MODE_REGULAR, 0, 0)
        .unwrap();
    let (fh1, _) = driver.open(attr.ino, libc::O_RDONLY).unwrap();
    driver.release(fh1).unwrap();
    let (fh2, _) = driver.open(attr.ino, libc::O_RDONLY).unwrap();
    assert_eq!(fh1, fh2);
    driver.release(fh2).unwrap();
}

#[test]
fn test_lseek_whence_variants() {
    let mut driver = new_driver_with_root();
    let attr = driver
        .mknod(req(), 1, name("s.bin"), MODE_REGULAR, 0, 0)
        .unwrap();
    let (fh, _) = driver.open(attr.ino, libc::O_RDWR).unwrap();
    driver.write(fh, 0, &vec![1u8; 100]).unwrap();
    driver.flush(fh).unwrap();

    assert_eq!(driver.lseek(attr.ino, fh, 10, libc::SEEK_SET), Ok(10));
    assert_eq!(driver.lseek(attr.ino, fh, 5, libc::SEEK_CUR), Ok(15));
    assert_eq!(driver.lseek(attr.ino, fh, -20, libc::SEEK_END), Ok(80));
    assert_eq!(
        driver.lseek(attr.ino, fh, -1, libc::SEEK_SET),
        Err(FsError::InvalidArgument)
    );
    assert_eq!(
        driver.lseek(attr.ino, fh, -100, libc::SEEK_CUR),
        Err(FsError::InvalidArgument)
    );
    assert_eq!(
        driver.lseek(attr.ino, fh, -200, libc::SEEK_END),
        Err(FsError::InvalidArgument)
    );
    assert_eq!(
        driver.lseek(attr.ino, fh, i64::MAX, libc::SEEK_CUR),
        Err(FsError::InvalidArgument)
    );
    assert_eq!(
        driver.lseek(9999, fh, 0, libc::SEEK_END),
        Err(FsError::NotFound)
    );
    assert_eq!(
        driver.lseek(attr.ino, fh, 0, 77),
        Err(FsError::InvalidArgument)
    );
    // errors leave the cursor where it was
    assert_eq!(driver.lseek(attr.ino, fh, 0, libc::SEEK_CUR), Ok(80));
    driver.release(fh).unwrap();
}

#[test]
fn test_rename_moves_and_clobbers() {
    let mut driver = new_driver_with_root();
    let a = driver
        .mknod(req(), 1, name("old.txt"), MODE_REGULAR, 0, 0)
        .unwrap();
    driver
        .mknod(req(), 1, name("taken.txt"), MODE_REGULAR, 0, 0)
        .unwrap();
    driver
        .rename(1, &name("old.txt"), 1, name("taken.txt"))
        .unwrap();
    assert_eq!(driver.lookup(1, &name("old.txt")), Err(FsError::NotFound));
    let now = driver.lookup(1, &name("taken.txt")).unwrap();
    assert_eq!(now.ino, a.ino);
    assert_eq!(
        driver.rename(1, &name("never.txt"), 1, name("new.txt")),
        Err(FsError::NotFound)
    );
}

#[test]
fn test_read_beyond_end_is_empty() {
    let mut driver = new_driver_with_root();
    let attr = driver
        .mknod(req(), 1, name("short.bin"), MODE_REGULAR, 0, 0)
        .unwrap();
    let (fh, _) = driver.open(attr.ino, libc::O_WRONLY).unwrap();
    driver.write(fh, 0, &vec![2u8; 10]).unwrap();
    driver.release(fh).unwrap();
    assert_eq!(driver.read(attr.ino, 10, 5).unwrap(), Vec::<u8>::new());
    assert_eq!(driver.read(attr.ino, 100, 5).unwrap(), Vec::<u8>::new());
    assert_eq!(driver.read(attr.ino, 8, 5).unwrap(), vec![2u8, 2]);
}

#[test]
fn test_flush_makes_bytes_visible() {
    let mut driver = new_driver_with_root();
    let attr = driver
        .mknod(req(), 1, name("vis.bin"), MODE_REGULAR, 0, 0)
        .unwrap();
    let (fh, _) = driver.open(attr.ino, libc::O_WRONLY).unwrap();
    driver.write(fh, 0, &name("abc")).unwrap();
    // buffered, not yet durable
    assert_eq!(driver.read(attr.ino, 0, 3).unwrap(), Vec::<u8>::new());
    driver.flush(fh).unwrap();
    assert_eq!(driver.read(attr.ino, 0, 3).unwrap(), name("abc"));
    driver.release(fh).unwrap();
}

#[test]
fn test_mkdir_attrs() {
    let mut driver = new_driver_with_root();
    let dir = driver
        .mkdir(req_ids(5, 6), 1, name("d"), MODE_DIR, 0o022)
        .unwrap();
    assert_eq!(dir.kind, FileKind::Directory);
    assert_eq!(dir.nlink, 2);
    assert_eq!(dir.perm, 0o40755);
    assert_eq!(dir.uid, 5);
    assert_eq!(dir.gid, 6);
    assert_eq!(dir.size, 0);
    assert_eq!(dir.blocks, 0);
}

#[test]
fn test_kind_from_mode() {
    assert_eq!(FileKind::from_mode(0o100644), Some(FileKind::RegularFile));
    assert_eq!(FileKind::from_mode(0o040755), Some(FileKind::Directory));
    assert_eq!(FileKind::from_mode(0o120777), Some(FileKind::Symlink));
    assert_eq!(FileKind::from_mode(0o020600), Some(FileKind::CharDevice));
    assert_eq!(FileKind::from_mode(0o060600), Some(FileKind::BlockDevice));
    assert_eq!(FileKind::from_mode(0o010600), Some(FileKind::NamedPipe));
    assert_eq!(FileKind::from_mode(0o140600), Some(FileKind::Socket));
    assert_eq!(FileKind::from_mode(0), None);
}

#[test]
fn test_attr_defaults_on_mknod() {
    let mut driver = new_driver_with_root();
    let attr = driver
        .mknod(req_ids(9, 10), 1, name("n.dev"), 0o020600, 0, 77)
        .unwrap();
    assert_eq!(attr.kind, FileKind::CharDevice);
    assert_eq!(attr.nlink, 1);
    assert_eq!(attr.rdev, 77);
    assert_eq!(attr.size, 0);
    assert_eq!(attr.atime, TimeSpec { secs: 7, nanos: 0 });
    let _ = FileAttr { ..attr };
}
