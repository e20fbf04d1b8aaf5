//! Tests of the command-line parsing helpers, the identifier issuer, the
//! errno wrapper, the directory-record codec and the packer decisions.
//! The wire constants are held against the published preview-1 binding.

use wasi_vfs::cli::link;
use wasi_vfs::cli::merge_map_dirs;
use wasi_vfs::cli::parse_dirs;
use wasi_vfs::cli::parse_map_dirs;
use wasi_vfs::errno::DIRENT_HEADER_SIZE;
use wasi_vfs::packer::file_too_large;
use wasi_vfs::packer::join_path;
use wasi_vfs::packer::next_dirent;
use wasi_vfs::packer::skip_name;
use wasi_vfs::packer::DirentStep;
use wasi_vfs::readdir::encode_dirent;
use wasi_vfs::Error;
use wasi_vfs::IdIssuer;

#[test]
fn parse_map_dirs_splits_on_one_double_colon() {
    let (a, b) = parse_map_dirs(&b"/guest::/host".to_vec()).unwrap();
    assert_eq!(a, b"/guest".to_vec());
    assert_eq!(b, b"/host".to_vec());
    let (a, b) = parse_map_dirs(&b"::x".to_vec()).unwrap();
    assert_eq!(a, b"".to_vec());
    assert_eq!(b, b"x".to_vec());
    assert!(parse_map_dirs(&b"nocolon".to_vec()).is_err());
    assert!(parse_map_dirs(&b"a::b::c".to_vec()).is_err());
}

#[test]
fn parse_dirs_splits_on_one_double_colon() {
    let (a, b) = parse_dirs(&b"/host::/guest".to_vec()).unwrap();
    assert_eq!(a, b"/host".to_vec());
    assert_eq!(b, b"/guest".to_vec());
    assert!(parse_dirs(&b"a:b".to_vec()).is_err());
    assert!(parse_dirs(&b"a::::b".to_vec()).is_err());
}

#[test]
fn merge_swaps_dirs_into_guest_first_order() {
    let map_dirs = vec![(b"/g1".to_vec(), b"/h1".to_vec())];
    let dirs = vec![(b"/h2".to_vec(), b"/g2".to_vec()), (b"/h3".to_vec(), b"/g3".to_vec())];
    let merged = merge_map_dirs(map_dirs, dirs);
    assert_eq!(
        merged,
        vec![
            (b"/g1".to_vec(), b"/h1".to_vec()),
            (b"/g2".to_vec(), b"/h2".to_vec()),
            (b"/g3".to_vec(), b"/h3".to_vec()),
        ]
    );
}

#[test]
fn link_module_is_reserved() {
    assert!(link(b"\0asm").is_err());
}

#[test]
fn id_issuer_is_monotonic() {
    let mut issuer = IdIssuer::new(3);
    assert_eq!(issuer.issue(), 3);
    assert_eq!(issuer.issue(), 4);
    assert_eq!(issuer.issue(), 5);
}

#[test]
fn error_wraps_raw_errno() {
    assert_eq!(Error::new(8).raw(), 8);
    assert_eq!(Error::from(28u16).raw(), 28);
}

#[test]
fn constants_match_the_published_binding() {
    assert_eq!(wasi_vfs::errno::ERRNO_BADF, wasi::ERRNO_BADF.raw());
    assert_eq!(wasi_vfs::errno::ERRNO_INVAL, wasi::ERRNO_INVAL.raw());
    assert_eq!(wasi_vfs::errno::ERRNO_IO, wasi::ERRNO_IO.raw());
    assert_eq!(wasi_vfs::errno::ERRNO_ISDIR, wasi::ERRNO_ISDIR.raw());
    assert_eq!(wasi_vfs::errno::ERRNO_NOENT, wasi::ERRNO_NOENT.raw());
    assert_eq!(wasi_vfs::errno::ERRNO_NOTDIR, wasi::ERRNO_NOTDIR.raw());
    assert_eq!(wasi_vfs::errno::ERRNO_NOTSUP, wasi::ERRNO_NOTSUP.raw());
    assert_eq!(wasi_vfs::errno::ERRNO_SUCCESS, wasi::ERRNO_SUCCESS.raw());
    assert_eq!(wasi_vfs::errno::FILETYPE_DIRECTORY, wasi::FILETYPE_DIRECTORY.raw());
    assert_eq!(wasi_vfs::errno::FILETYPE_REGULAR_FILE, wasi::FILETYPE_REGULAR_FILE.raw());
    assert_eq!(wasi_vfs::errno::FILETYPE_UNKNOWN, wasi::FILETYPE_UNKNOWN.raw());
    assert_eq!(wasi_vfs::errno::WHENCE_SET, wasi::WHENCE_SET.raw());
    assert_eq!(wasi_vfs::errno::WHENCE_CUR, wasi::WHENCE_CUR.raw());
    assert_eq!(wasi_vfs::errno::WHENCE_END, wasi::WHENCE_END.raw());
    assert_eq!(wasi_vfs::errno::PREOPENTYPE_DIR, wasi::PREOPENTYPE_DIR.raw());
    assert_eq!(wasi_vfs::errno::RIGHTS_FD_READ, wasi::RIGHTS_FD_READ);
    assert_eq!(wasi_vfs::errno::RIGHTS_FD_ADVISE, wasi::RIGHTS_FD_ADVISE);
    assert_eq!(wasi_vfs::errno::RIGHTS_PATH_OPEN, wasi::RIGHTS_PATH_OPEN);
    assert_eq!(wasi_vfs::errno::RIGHTS_FD_READDIR, wasi::RIGHTS_FD_READDIR);
    assert_eq!(wasi_vfs::errno::RIGHTS_FD_FILESTAT_GET, wasi::RIGHTS_FD_FILESTAT_GET);
    assert_eq!(
        wasi_vfs::errno::READ_ONLY_RIGHTS,
        wasi::RIGHTS_FD_READ
            | wasi::RIGHTS_FD_ADVISE
            | wasi::RIGHTS_PATH_OPEN
            | wasi::RIGHTS_FD_READDIR
            | wasi::RIGHTS_FD_FILESTAT_GET
    );
    assert_eq!(DIRENT_HEADER_SIZE, core::mem::size_of::<wasi::Dirent>());
    assert_eq!(wasi_vfs::errno::DIRCOOKIE_START, wasi::DIRCOOKIE_START);
}

#[test]
fn dirent_header_layout_is_little_endian() {
    let header = encode_dirent(1, 2, 3, 4);
    assert_eq!(
        header,
        vec![
            1, 0, 0, 0, 0, 0, 0, 0, // d_next
            2, 0, 0, 0, 0, 0, 0, 0, // d_ino
            3, 0, 0, 0, // d_namlen
            4, 0, 0, 0, // d_type and padding
        ]
    );
}

#[test]
fn next_dirent_round_trips_an_encoded_record() {
    let mut buf = encode_dirent(7, 42, 3, 4);
    buf.extend_from_slice(b"abc");
    buf.extend_from_slice(&[0xFF; 5]);
    let capacity = buf.len();
    match next_dirent(&buf, capacity, 0) {
        DirentStep::Entry { d_next, d_type, name, next_offset } => {
            assert_eq!(d_next, 7);
            assert_eq!(d_type, 4);
            assert_eq!(name, b"abc".to_vec());
            assert_eq!(next_offset, 27);
        }
        DirentStep::NeedMore { .. } => panic!("expected a complete entry"),
    }
}

#[test]
fn next_dirent_reports_truncation() {
    let mut buf = encode_dirent(1, 1, 10, 4);
    buf.extend_from_slice(b"abc");
    let capacity = buf.len();
    // the name reaches past the capacity, and the record began the buffer
    match next_dirent(&buf, capacity, 0) {
        DirentStep::NeedMore { grow } => assert!(grow),
        DirentStep::Entry { .. } => panic!("expected truncation"),
    }
    // a truncated header asks for a plain re-issue without growing
    match next_dirent(&buf, 10, 0) {
        DirentStep::NeedMore { grow } => assert!(!grow),
        DirentStep::Entry { .. } => panic!("expected truncation"),
    }
    match next_dirent(&buf, capacity, 20) {
        DirentStep::NeedMore { grow } => assert!(!grow),
        DirentStep::Entry { .. } => panic!("expected truncation"),
    }
}

#[test]
fn packer_skips_files_at_the_size_limit() {
    assert!(!file_too_large(0));
    assert!(!file_too_large(0xFFFF_FFFE));
    assert!(file_too_large(0xFFFF_FFFF), "a file of exactly 2^32 - 1 bytes is skipped");
    assert!(file_too_large(u64::MAX));
}

#[test]
fn walk_filters_dot_names_and_joins_paths() {
    assert!(skip_name(&b".".to_vec()));
    assert!(skip_name(&b"..".to_vec()));
    assert!(!skip_name(&b"...".to_vec()));
    assert!(!skip_name(&b"a".to_vec()));
    assert_eq!(join_path(&b"".to_vec(), &b"top".to_vec()), b"/top".to_vec());
    assert_eq!(join_path(&b"/a".to_vec(), &b"b".to_vec()), b"/a/b".to_vec());
}
