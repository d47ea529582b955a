use blockfs::flags::OpenFlags;

#[test]
fn test_open_flags() {
    let flags = OpenFlags::from(libc::O_RDONLY);
    assert_eq!(
        (
            flags.read,
            flags.write,
            flags.create,
            flags.append,
            flags.truncate,
            flags.sync
        ),
        (true, false, false, false, false, false)
    );

    let flags = OpenFlags::from(libc::O_WRONLY);
    assert_eq!(
        (
            flags.read,
            flags.write,
            flags.create,
            flags.append,
            flags.truncate,
            flags.sync
        ),
        (false, true, false, false, false, false)
    );

    let flags = OpenFlags::from(libc::O_RDWR);
    assert_eq!(
        (
            flags.read,
            flags.write,
            flags.create,
            flags.append,
            flags.truncate,
            flags.sync
        ),
        (true, true, false, false, false, false)
    );

    let flags = OpenFlags::from(libc::O_WRONLY | libc::O_CREAT | libc::O_APPEND);
    assert_eq!(
        (
            flags.read,
            flags.write,
            flags.create,
            flags.append,
            flags.truncate,
            flags.sync
        ),
        (false, true, true, true, false, false)
    );

    let flags = OpenFlags::from(libc::O_RDWR | libc::O_TRUNC | libc::O_SYNC);
    assert_eq!(
        (
            flags.read,
            flags.write,
            flags.create,
            flags.append,
            flags.truncate,
            flags.sync
        ),
        (true, true, false, false, true, true)
    );
}

#[test]
fn test_flag_bits_echoed() {
    let bits = libc::O_RDWR | libc::O_CREAT;
    let flags = OpenFlags::from(bits);
    assert_eq!(flags.bits, bits);
}
