//! End-to-end tests of the descriptor router: opening, reading, seeking,
//! stats, preopen enumeration, directory reading, closing, and the
//! operations the virtual side refuses.

use wasi_vfs::embed::EmbeddedFs;
use wasi_vfs::errno::ERRNO_BADF;
use wasi_vfs::errno::ERRNO_INVAL;
use wasi_vfs::errno::ERRNO_ISDIR;
use wasi_vfs::errno::ERRNO_NOENT;
use wasi_vfs::errno::ERRNO_NOTDIR;
use wasi_vfs::errno::ERRNO_NOTSUP;
use wasi_vfs::errno::FILETYPE_DIRECTORY;
use wasi_vfs::errno::FILETYPE_REGULAR_FILE;
use wasi_vfs::errno::PREOPENTYPE_DIR;
use wasi_vfs::errno::READ_ONLY_RIGHTS;
use wasi_vfs::errno::WHENCE_CUR;
use wasi_vfs::errno::WHENCE_END;
use wasi_vfs::errno::WHENCE_SET;
use wasi_vfs::fs::FileSystem;
use wasi_vfs::fs::Prestat;
use wasi_vfs::fs::Routed;

/// A router with one virtual preopen holding one packed file.
fn router_with_file(mount: &[u8], relpath: &[u8], content: &[u8]) -> FileSystem {
    let mut fs = EmbeddedFs::default();
    let (vfd, node, link) = fs.preopen_dir(mount.to_vec());
    fs.create_file(node, link, &relpath.to_vec(), content.to_vec())
        .unwrap();
    FileSystem::create(fs, 0, &vec![vfd])
}

#[test]
fn open_read_seek_read_round_trip() {
    // pack /etc/hello.txt, open it, read "Hello", rewind, read again
    let mut router = router_with_file(b"/etc", b"hello.txt", b"Hello");
    let fd = match router.path_open(3, &b"hello.txt".to_vec(), 0).unwrap() {
        Routed::Done(fd) => fd,
        Routed::Host(_) => panic!("expected a virtual open"),
    };
    assert_eq!(fd, 4);
    let data = match router.fd_read(fd, 8).unwrap() {
        Routed::Done(data) => data,
        Routed::Host(_) => panic!("expected a virtual read"),
    };
    assert_eq!(data.len(), 5);
    assert_eq!(data, b"Hello".to_vec());
    assert_eq!(router.fd_seek(fd, 0, WHENCE_SET).unwrap(), Routed::Done(0));
    let again = match router.fd_read(fd, 8).unwrap() {
        Routed::Done(data) => data,
        Routed::Host(_) => panic!("expected a virtual read"),
    };
    assert_eq!(again, b"Hello".to_vec());
}

#[test]
fn open_nested_path_and_stat_size() {
    // pack /data/a/b/c.bin and stat it through a relative open
    let mut router = router_with_file(b"/data", b"a/b/c.bin", &[0xDE, 0xAD, 0xBE, 0xEF]);
    let fd = match router.path_open(3, &b"a/b/c.bin".to_vec(), 0).unwrap() {
        Routed::Done(fd) => fd,
        Routed::Host(_) => panic!("expected a virtual open"),
    };
    let stat = match router.fd_filestat_get(fd).unwrap() {
        Routed::Done(stat) => stat,
        Routed::Host(_) => panic!("expected a virtual stat"),
    };
    assert_eq!(stat.size, 4);
    assert_eq!(stat.filetype, FILETYPE_REGULAR_FILE);
}

#[test]
fn open_missing_path_is_noent() {
    let mut router = router_with_file(b"/etc", b"hello.txt", b"Hello");
    assert_eq!(router.path_open(3, &b"nope".to_vec(), 0).unwrap_err(), ERRNO_NOENT);
}

#[test]
fn write_to_virtual_descriptor_is_notsup() {
    let router = router_with_file(b"/etc", b"hello.txt", b"Hello");
    assert_eq!(router.fd_write(3).unwrap_err(), ERRNO_NOTSUP);
    assert_eq!(router.fd_pwrite(3).unwrap_err(), ERRNO_NOTSUP);
    assert_eq!(router.fd_allocate(3).unwrap_err(), ERRNO_NOTSUP);
    assert_eq!(router.fd_advise(3).unwrap_err(), ERRNO_NOTSUP);
    assert_eq!(router.fd_datasync(3).unwrap_err(), ERRNO_NOTSUP);
    assert_eq!(router.fd_sync(3).unwrap_err(), ERRNO_NOTSUP);
    assert_eq!(router.fd_pread(3).unwrap_err(), ERRNO_NOTSUP);
    assert_eq!(router.fd_fdstat_set_rights(3).unwrap_err(), ERRNO_NOTSUP);
    assert_eq!(router.fd_filestat_set_size(3).unwrap_err(), ERRNO_NOTSUP);
    assert_eq!(router.fd_filestat_set_times(3).unwrap_err(), ERRNO_NOTSUP);
    assert_eq!(router.path_create_directory(3).unwrap_err(), ERRNO_NOTSUP);
    assert_eq!(router.path_filestat_set_times(3).unwrap_err(), ERRNO_NOTSUP);
    assert_eq!(router.path_remove_directory(3).unwrap_err(), ERRNO_NOTSUP);
    assert_eq!(router.path_symlink(3).unwrap_err(), ERRNO_NOTSUP);
    assert_eq!(router.path_unlink_file(3).unwrap_err(), ERRNO_NOTSUP);
}

#[test]
fn mixed_preopens_enumerate_in_one_range() {
    // a real host preopen sits at descriptor 3, the virtual one at 4
    let mut fs = EmbeddedFs::default();
    let (vfd, _, _) = fs.preopen_dir(b"/pack".to_vec());
    let router = FileSystem::create(fs, 1, &vec![vfd]);
    assert_eq!(router.fd_prestat_get(3).unwrap(), Routed::Host(3));
    assert_eq!(
        router.fd_prestat_get(4).unwrap(),
        Routed::Done(Prestat { tag: PREOPENTYPE_DIR, pr_name_len: 5 })
    );
    assert_eq!(router.fd_prestat_get(5).unwrap_err(), ERRNO_BADF);
    match router.fd_prestat_dir_name(4, 5).unwrap() {
        Routed::Done(bytes) => assert_eq!(bytes, b"/pack".to_vec()),
        Routed::Host(_) => panic!("expected a virtual preopen"),
    }
}

#[test]
fn readdir_truncation_makes_no_progress_until_buffer_grows() {
    // two entries named "a" and "bb"; a 1-byte buffer truncates
    let mut fs = EmbeddedFs::default();
    let (vfd, node, link) = fs.preopen_dir(b"/".to_vec());
    fs.create_file(node, link, &b"a".to_vec(), vec![1]).unwrap();
    fs.create_file(node, link, &b"bb".to_vec(), vec![2, 3]).unwrap();
    let router = FileSystem::create(fs, 0, &vec![vfd]);

    let (bytes, bufused) = match router.fd_readdir(3, 1, 0).unwrap() {
        Routed::Done(out) => out,
        Routed::Host(_) => panic!("expected a virtual readdir"),
    };
    assert_eq!(bufused, 1, "truncation reports the full buffer length");
    assert_eq!(bytes.len(), 1);
    assert_eq!(bytes[0], 1, "the first record's d_next is 1, little-endian");

    let (bytes, bufused) = match router.fd_readdir(3, 4096, 0).unwrap() {
        Routed::Done(out) => out,
        Routed::Host(_) => panic!("expected a virtual readdir"),
    };
    assert_eq!(bufused, 24 + 1 + 24 + 2);
    // first record: d_next 1, name "a"
    assert_eq!(&bytes[0..8], &[1, 0, 0, 0, 0, 0, 0, 0]);
    assert_eq!(&bytes[16..20], &[1, 0, 0, 0]);
    assert_eq!(bytes[20], FILETYPE_REGULAR_FILE);
    assert_eq!(bytes[24], b'a');
    // second record: d_next 2, name "bb"
    assert_eq!(&bytes[25..33], &[2, 0, 0, 0, 0, 0, 0, 0]);
    assert_eq!(&bytes[41..45], &[2, 0, 0, 0]);
    assert_eq!(&bytes[49..51], b"bb");

    let (_, bufused) = match router.fd_readdir(3, 4096, 1).unwrap() {
        Routed::Done(out) => out,
        Routed::Host(_) => panic!("expected a virtual readdir"),
    };
    assert_eq!(bufused, 24 + 2, "cookie 1 resumes at the second entry");

    let (bytes, bufused) = match router.fd_readdir(3, 4096, 2).unwrap() {
        Routed::Done(out) => out,
        Routed::Host(_) => panic!("expected a virtual readdir"),
    };
    assert_eq!(bufused, 0, "cookie 2 is past the last entry");
    assert!(bytes.is_empty());
}

#[test]
fn seek_set_then_tell_round_trips() {
    let mut router = router_with_file(b"/etc", b"hello.txt", b"Hello");
    let fd = match router.path_open(3, &b"hello.txt".to_vec(), 0).unwrap() {
        Routed::Done(fd) => fd,
        Routed::Host(_) => panic!("expected a virtual open"),
    };
    for k in [0i64, 3, 5, 7, 12345, (1i64 << 62)] {
        assert_eq!(router.fd_seek(fd, k, WHENCE_SET).unwrap(), Routed::Done(k as u64));
        assert_eq!(router.fd_tell(fd).unwrap(), Routed::Done(k as u64));
    }
}

#[test]
fn seek_edges() {
    let mut router = router_with_file(b"/etc", b"hello.txt", b"Hello");
    let fd = match router.path_open(3, &b"hello.txt".to_vec(), 0).unwrap() {
        Routed::Done(fd) => fd,
        Routed::Host(_) => panic!("expected a virtual open"),
    };
    // END + 1 lands one past the content
    assert_eq!(router.fd_seek(fd, 1, WHENCE_END).unwrap(), Routed::Done(6));
    // CUR - 2 moves back
    assert_eq!(router.fd_seek(fd, -2, WHENCE_CUR).unwrap(), Routed::Done(4));
    // below zero is invalid and the offset stays put
    assert_eq!(router.fd_seek(fd, -5, WHENCE_CUR).unwrap_err(), ERRNO_INVAL);
    assert_eq!(router.fd_tell(fd).unwrap(), Routed::Done(4));
    // a negative absolute position is invalid
    assert_eq!(router.fd_seek(fd, -1, WHENCE_SET).unwrap_err(), ERRNO_INVAL);
    // an unknown whence is invalid
    assert_eq!(router.fd_seek(fd, 0, 9).unwrap_err(), ERRNO_INVAL);
    // seek on a directory is invalid
    assert_eq!(router.fd_seek(3, 0, WHENCE_SET).unwrap_err(), ERRNO_INVAL);
}

#[test]
fn close_then_reference_yields_badf() {
    let mut router = router_with_file(b"/etc", b"hello.txt", b"Hello");
    let fd = match router.path_open(3, &b"hello.txt".to_vec(), 0).unwrap() {
        Routed::Done(fd) => fd,
        Routed::Host(_) => panic!("expected a virtual open"),
    };
    assert_eq!(router.fd_close(fd).unwrap(), Routed::Done(()));
    assert_eq!(router.fd_read(fd, 4).unwrap_err(), ERRNO_BADF);
    assert_eq!(router.fd_tell(fd).unwrap_err(), ERRNO_BADF);
    assert_eq!(router.fd_close(fd).unwrap_err(), ERRNO_BADF);
}

#[test]
fn user_descriptors_grow_and_are_never_reused() {
    let mut router = router_with_file(b"/etc", b"hello.txt", b"Hello");
    let a = match router.path_open(3, &b"hello.txt".to_vec(), 0).unwrap() {
        Routed::Done(fd) => fd,
        Routed::Host(_) => panic!("expected a virtual open"),
    };
    let b = match router.path_open(3, &b"hello.txt".to_vec(), 0).unwrap() {
        Routed::Done(fd) => fd,
        Routed::Host(_) => panic!("expected a virtual open"),
    };
    assert!(b > a);
    router.fd_close(a).unwrap();
    let c = match router.path_open(3, &b"hello.txt".to_vec(), 0).unwrap() {
        Routed::Done(fd) => fd,
        Routed::Host(_) => panic!("expected a virtual open"),
    };
    assert!(c > b, "a closed user descriptor is never reissued");
}

#[test]
fn fdstat_reports_type_flags_and_rights() {
    let mut router = router_with_file(b"/etc", b"hello.txt", b"Hello");
    let dir_stat = match router.fd_fdstat_get(3).unwrap() {
        Routed::Done(stat) => stat,
        Routed::Host(_) => panic!("expected a virtual stat"),
    };
    assert_eq!(dir_stat.fs_filetype, FILETYPE_DIRECTORY);
    assert_eq!(dir_stat.fs_rights_base, READ_ONLY_RIGHTS);
    assert_eq!(dir_stat.fs_rights_inheriting, READ_ONLY_RIGHTS);

    let fd = match router.path_open(3, &b"hello.txt".to_vec(), 7).unwrap() {
        Routed::Done(fd) => fd,
        Routed::Host(_) => panic!("expected a virtual open"),
    };
    let file_stat = match router.fd_fdstat_get(fd).unwrap() {
        Routed::Done(stat) => stat,
        Routed::Host(_) => panic!("expected a virtual stat"),
    };
    assert_eq!(file_stat.fs_filetype, FILETYPE_REGULAR_FILE);
    assert_eq!(file_stat.fs_flags, 7, "flags are echoed from the open");

    assert_eq!(router.fd_fdstat_set_flags(fd, 1).unwrap(), Routed::Done(()));
    let file_stat = match router.fd_fdstat_get(fd).unwrap() {
        Routed::Done(stat) => stat,
        Routed::Host(_) => panic!("expected a virtual stat"),
    };
    assert_eq!(file_stat.fs_flags, 1);
}

#[test]
fn path_filestat_get_resolves_then_stats() {
    let router = router_with_file(b"/etc", b"hello.txt", b"Hello");
    let stat = match router.path_filestat_get(3, &b"hello.txt".to_vec()).unwrap() {
        Routed::Done(stat) => stat,
        Routed::Host(_) => panic!("expected a virtual stat"),
    };
    assert_eq!(stat.size, 5);
    assert_eq!(
        router.path_filestat_get(3, &b"nope".to_vec()).unwrap_err(),
        ERRNO_NOENT
    );
}

#[test]
fn read_from_directory_and_readdir_on_file() {
    let mut router = router_with_file(b"/etc", b"hello.txt", b"Hello");
    assert_eq!(router.fd_read(3, 4).unwrap_err(), ERRNO_ISDIR);
    let fd = match router.path_open(3, &b"hello.txt".to_vec(), 0).unwrap() {
        Routed::Done(fd) => fd,
        Routed::Host(_) => panic!("expected a virtual open"),
    };
    assert_eq!(router.fd_readdir(fd, 64, 0).unwrap_err(), ERRNO_NOTDIR);
}

#[test]
fn two_descriptor_operations_need_both_passthrough() {
    let router = router_with_file(b"/etc", b"hello.txt", b"Hello");
    assert_eq!(router.fd_renumber(0, 1).unwrap(), (0, 1));
    assert_eq!(router.fd_renumber(0, 3).unwrap_err(), ERRNO_NOTSUP);
    assert_eq!(router.fd_renumber(3, 0).unwrap_err(), ERRNO_NOTSUP);
    assert_eq!(router.fd_renumber(99, 0).unwrap_err(), ERRNO_BADF);
    assert_eq!(router.path_link(0, 3).unwrap_err(), ERRNO_NOTSUP);
    assert_eq!(router.path_rename(3, 1).unwrap_err(), ERRNO_NOTSUP);
}

#[test]
fn readlink_and_poll_on_virtual_side() {
    let router = router_with_file(b"/etc", b"hello.txt", b"Hello");
    assert_eq!(router.path_readlink(3).unwrap_err(), ERRNO_INVAL);
    assert_eq!(router.poll_oneoff().unwrap_err(), ERRNO_NOTSUP);
    assert_eq!(router.path_readlink(0).unwrap(), Routed::Host(0));
}

#[test]
fn passthrough_descriptors_route_to_host() {
    let mut router = router_with_file(b"/etc", b"hello.txt", b"Hello");
    assert_eq!(router.fd_read(0, 4).unwrap(), Routed::Host(0));
    assert_eq!(router.fd_close(1).unwrap(), Routed::Host(1));
    assert_eq!(router.fd_write(2).unwrap(), Routed::Host(2));
    assert_eq!(router.fd_read(77, 4).unwrap_err(), ERRNO_BADF);
}

#[test]
fn seek_overflow_is_inval() {
    let mut router = router_with_file(b"/etc", b"hello.txt", b"Hello");
    let fd = match router.path_open(3, &b"hello.txt".to_vec(), 0).unwrap() {
        Routed::Done(fd) => fd,
        Routed::Host(_) => panic!("expected a virtual open"),
    };
    let half = i64::MAX as u64;
    assert_eq!(router.fd_seek(fd, i64::MAX, WHENCE_SET).unwrap(), Routed::Done(half));
    assert_eq!(router.fd_seek(fd, i64::MAX, WHENCE_CUR).unwrap(), Routed::Done(u64::MAX - 1));
    assert_eq!(router.fd_seek(fd, 2, WHENCE_CUR).unwrap_err(), ERRNO_INVAL);
    // the failed seek left the cursor where it was
    assert_eq!(router.fd_tell(fd).unwrap(), Routed::Done(u64::MAX - 1));
    // reading far past the end yields nothing and stays put
    assert_eq!(router.fd_read(fd, 8).unwrap(), Routed::Done(vec![]));
}

#[test]
fn prestat_dir_name_respects_short_buffer() {
    let router = router_with_file(b"/etc", b"hello.txt", b"Hello");
    match router.fd_prestat_dir_name(3, 2).unwrap() {
        Routed::Done(bytes) => assert_eq!(bytes, b"/e".to_vec()),
        Routed::Host(_) => panic!("expected a virtual preopen"),
    }
}
