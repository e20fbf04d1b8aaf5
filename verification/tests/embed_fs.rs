//! Tests of the storage arena and the embedded file system: creation,
//! path resolution, preopen registry, stats and the directory reader.

use wasi_vfs::embed::EmbeddedFs;
use wasi_vfs::errno::ERRNO_BADF;
use wasi_vfs::errno::ERRNO_NOENT;
use wasi_vfs::errno::ERRNO_NOTDIR;
use wasi_vfs::errno::FILETYPE_DIRECTORY;
use wasi_vfs::errno::FILETYPE_REGULAR_FILE;
use wasi_vfs::storage::LinkedStorage;
use wasi_vfs::storage::NodeData;

#[test]
fn test_embedded_node_create_file() {
    let content = "Hello".as_bytes().to_vec();
    let mut fs = EmbeddedFs::default();
    let (_, node_id, link_id) = fs.preopen_dir(b"/".to_vec());
    fs.create_file(node_id, link_id, &b"hello.txt".to_vec(), content)
        .unwrap();
}

#[test]
fn test_get_filestat_at_path_for_non_existing() {
    let mut fs = EmbeddedFs::default();
    let (vfd, _, _) = fs.preopen_dir(b"/".to_vec());
    let result = fs.get_filestat_at_path(vfd, &b"/not-exist".to_vec());
    assert!(result.is_err());
}

#[test]
fn preopen_path_round_trips() {
    let mut fs = EmbeddedFs::default();
    let (vfd_a, _, _) = fs.preopen_dir(b"/etc".to_vec());
    let (vfd_b, _, _) = fs.preopen_dir(b"/data".to_vec());
    assert_eq!(fs.get_preopened_dir_path(vfd_a).unwrap(), &b"/etc".to_vec());
    assert_eq!(fs.get_preopened_dir_path(vfd_b).unwrap(), &b"/data".to_vec());
    assert!(fs.get_preopened_dir_path(2).is_none());
}

#[test]
fn new_file_resolves_to_same_pair() {
    let mut storage = LinkedStorage::new();
    let root = storage.new_root_dir();
    let made = storage.new_file(root, b"f.bin".to_vec(), vec![1, 2, 3]);
    let found = storage
        .resolve_node(root.0, root.1, &b"f.bin".to_vec())
        .unwrap();
    assert_eq!(found, made);
    match storage.get_inode(&found.0) {
        NodeData::File { content } => assert_eq!(content, &vec![1, 2, 3]),
        NodeData::Dir { .. } => panic!("expected a file"),
    }
}

#[test]
fn new_dir_resolves_with_leading_dot() {
    let mut storage = LinkedStorage::new();
    let root = storage.new_root_dir();
    let made = storage.new_dir(root, b"sub".to_vec());
    let found = storage
        .resolve_node(root.0, root.1, &b"./sub".to_vec())
        .unwrap();
    assert_eq!(found, made);
    let found_plain = storage
        .resolve_node(root.0, root.1, &b"sub".to_vec())
        .unwrap();
    assert_eq!(found_plain, made);
}

#[test]
fn root_dotdot_stays_at_root() {
    let mut storage = LinkedStorage::new();
    let root = storage.new_root_dir();
    let found = storage
        .resolve_node(root.0, root.1, &b"..".to_vec())
        .unwrap();
    assert_eq!(found, root);
}

#[test]
fn dotdot_returns_to_parent() {
    let mut storage = LinkedStorage::new();
    let root = storage.new_root_dir();
    let d = storage.new_dir(root, b"d".to_vec());
    let e = storage.new_dir(d, b"e".to_vec());
    let found = storage
        .resolve_node(root.0, root.1, &b"d/e/../e".to_vec())
        .unwrap();
    assert_eq!(found, e);
}

#[test]
fn trailing_slash_on_file_resolves_to_file() {
    let mut storage = LinkedStorage::new();
    let root = storage.new_root_dir();
    let made = storage.new_file(root, b"a".to_vec(), vec![9]);
    let found = storage.resolve_node(root.0, root.1, &b"a/".to_vec()).unwrap();
    assert_eq!(found, made);
}

#[test]
fn absolute_path_resets_to_preopen_root() {
    let mut storage = LinkedStorage::new();
    let root = storage.new_root_dir();
    let sub = storage.new_dir(root, b"sub".to_vec());
    let top = storage.new_file(root, b"top".to_vec(), vec![7]);
    // resolving an absolute path from deep inside lands at the root first
    let found = storage.resolve_node(sub.0, sub.1, &b"/top".to_vec()).unwrap();
    assert_eq!(found, top);
}

#[test]
fn empty_path_resolves_to_base() {
    let mut storage = LinkedStorage::new();
    let root = storage.new_root_dir();
    let found = storage.resolve_node(root.0, root.1, &b"".to_vec()).unwrap();
    assert_eq!(found, root);
}

#[test]
fn missing_component_is_noent() {
    let mut storage = LinkedStorage::new();
    let root = storage.new_root_dir();
    let err = storage
        .resolve_node(root.0, root.1, &b"nope".to_vec())
        .unwrap_err();
    assert_eq!(err, ERRNO_NOENT);
}

#[test]
fn traversal_through_file_is_notdir() {
    let mut storage = LinkedStorage::new();
    let root = storage.new_root_dir();
    storage.new_file(root, b"f".to_vec(), vec![1]);
    let err = storage
        .resolve_node(root.0, root.1, &b"f/x".to_vec())
        .unwrap_err();
    assert_eq!(err, ERRNO_NOTDIR);
}

#[test]
fn create_file_builds_intermediate_directories() {
    let mut fs = EmbeddedFs::default();
    let (_, node, link) = fs.preopen_dir(b"/data".to_vec());
    fs.create_file(node, link, &b"/a/b/c.bin".to_vec(), vec![0xDE, 0xAD, 0xBE, 0xEF])
        .unwrap();
    let stat = fs
        .get_filestat_at_path(0, &b"a/b/c.bin".to_vec())
        .unwrap();
    assert_eq!(stat.size, 4);
    assert_eq!(stat.filetype, FILETYPE_REGULAR_FILE);
    let dir_stat = fs.get_filestat_at_path(0, &b"a/b".to_vec()).unwrap();
    assert_eq!(dir_stat.filetype, FILETYPE_DIRECTORY);
    assert_eq!(dir_stat.size, 0);
}

#[test]
fn create_dir_materializes_empty_directory() {
    let mut fs = EmbeddedFs::default();
    let (vfd, node, link) = fs.preopen_dir(b"/data".to_vec());
    fs.create_dir(node, link, &b"/empty/inner".to_vec()).unwrap();
    let stat = fs.get_filestat_at_path(vfd, &b"empty/inner".to_vec()).unwrap();
    assert_eq!(stat.filetype, FILETYPE_DIRECTORY);
}

#[test]
fn create_file_under_file_is_badf() {
    let mut fs = EmbeddedFs::default();
    let (_, node, link) = fs.preopen_dir(b"/".to_vec());
    fs.create_file(node, link, &b"f".to_vec(), vec![1]).unwrap();
    let err = fs
        .create_file(node, link, &b"f/child".to_vec(), vec![2])
        .unwrap_err();
    assert_eq!(err, ERRNO_BADF);
}

#[test]
fn close_then_reference_is_badf() {
    let mut fs = EmbeddedFs::default();
    let (vfd, _, _) = fs.preopen_dir(b"/".to_vec());
    fs.close_file(vfd).unwrap();
    assert_eq!(fs.get_fd_entry(vfd).unwrap_err(), ERRNO_BADF);
    assert_eq!(fs.get_fd_stat(vfd).unwrap_err(), ERRNO_BADF);
    assert_eq!(fs.close_file(vfd).unwrap_err(), ERRNO_BADF);
}

#[test]
fn open_file_issues_fresh_descriptors() {
    let mut fs = EmbeddedFs::default();
    let (vfd, node, link) = fs.preopen_dir(b"/".to_vec());
    fs.create_file(node, link, &b"x".to_vec(), vec![1]).unwrap();
    let a = fs.open_file(vfd, &b"x".to_vec(), 0).unwrap();
    let b = fs.open_file(vfd, &b"x".to_vec(), 0).unwrap();
    assert!(a < b);
    fs.close_file(a).unwrap();
    let c = fs.open_file(vfd, &b"x".to_vec(), 0).unwrap();
    assert!(c > b, "a closed descriptor is never reissued");
}

#[test]
fn read_advances_offset_and_stops_at_end() {
    let mut fs = EmbeddedFs::default();
    let (vfd, node, link) = fs.preopen_dir(b"/".to_vec());
    fs.create_file(node, link, &b"x".to_vec(), b"abcdef".to_vec())
        .unwrap();
    let fd = fs.open_file(vfd, &b"x".to_vec(), 0).unwrap();
    assert_eq!(fs.read_from(fd, 4).unwrap(), b"abcd".to_vec());
    assert_eq!(fs.read_from(fd, 4).unwrap(), b"ef".to_vec());
    assert_eq!(fs.read_from(fd, 4).unwrap(), b"".to_vec());
}

#[test]
fn read_from_directory_is_isdir() {
    let mut fs = EmbeddedFs::default();
    let (vfd, _, _) = fs.preopen_dir(b"/".to_vec());
    assert_eq!(fs.read_from(vfd, 4).unwrap_err(), wasi_vfs::errno::ERRNO_ISDIR);
}

#[test]
fn readdir_of_empty_directory_is_empty() {
    let mut fs = EmbeddedFs::default();
    let (vfd, _, _) = fs.preopen_dir(b"/".to_vec());
    let (bytes, bufused) = fs.read_dir(vfd, 4096, 0).unwrap();
    assert_eq!(bufused, 0);
    assert!(bytes.is_empty());
}

#[test]
fn readdir_on_file_is_notdir() {
    let mut fs = EmbeddedFs::default();
    let (vfd, node, link) = fs.preopen_dir(b"/".to_vec());
    fs.create_file(node, link, &b"x".to_vec(), vec![1]).unwrap();
    let fd = fs.open_file(vfd, &b"x".to_vec(), 0).unwrap();
    assert_eq!(fs.read_dir(fd, 4096, 0).unwrap_err(), ERRNO_NOTDIR);
}

#[test]
fn filestat_reports_ino_from_identity() {
    let mut fs = EmbeddedFs::default();
    let (_, node, link) = fs.preopen_dir(b"/".to_vec());
    fs.create_file(node, link, &b"x".to_vec(), vec![1, 2]).unwrap();
    let stat = fs.get_filestat_at_path(0, &b"x".to_vec()).unwrap();
    assert_eq!(stat.ino, node.ino() + 1, "the file inode follows the root in the arena");
    assert_eq!(stat.dev, 0);
    assert_eq!(stat.nlink, 0);
    assert_eq!(stat.atim, 0);
    assert_eq!(stat.mtim, 0);
    assert_eq!(stat.ctim, 0);
}

#[test]
fn create_file_skips_dot_components() {
    let mut fs = EmbeddedFs::default();
    let (vfd, node, link) = fs.preopen_dir(b"/".to_vec());
    fs.create_file(node, link, &b"./a/./b.txt".to_vec(), vec![1, 2])
        .unwrap();
    let stat = fs.get_filestat_at_path(vfd, &b"a/b.txt".to_vec()).unwrap();
    assert_eq!(stat.size, 2);
}

#[test]
fn create_file_reuses_existing_directories() {
    let mut fs = EmbeddedFs::default();
    let (vfd, node, link) = fs.preopen_dir(b"/".to_vec());
    fs.create_file(node, link, &b"a/one".to_vec(), vec![1]).unwrap();
    fs.create_file(node, link, &b"a/two".to_vec(), vec![2, 2]).unwrap();
    assert_eq!(fs.get_filestat_at_path(vfd, &b"a/one".to_vec()).unwrap().size, 1);
    assert_eq!(fs.get_filestat_at_path(vfd, &b"a/two".to_vec()).unwrap().size, 2);
}
