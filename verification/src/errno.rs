//! WASI preview-1 wire constants used by the virtual side: errno codes,
//! file types, seek whence values, the read-only rights mask and the
//! directory-entry record layout. The values are fixed by the published
//! preview-1 ABI.

use vstd::prelude::*;

verus! {

// Errno codes raised by the core.
pub const ERRNO_SUCCESS: u16 = 0;
pub const ERRNO_BADF: u16 = 8;
pub const ERRNO_INVAL: u16 = 28;
pub const ERRNO_IO: u16 = 29;
pub const ERRNO_ISDIR: u16 = 31;
pub const ERRNO_NOENT: u16 = 44;
pub const ERRNO_NOTDIR: u16 = 54;
pub const ERRNO_NOTSUP: u16 = 58;

// File types, as reported in stat results and directory entries.
pub const FILETYPE_UNKNOWN: u8 = 0;
pub const FILETYPE_DIRECTORY: u8 = 3;
pub const FILETYPE_REGULAR_FILE: u8 = 4;

// Whence values accepted by seek.
pub const WHENCE_SET: u8 = 0;
pub const WHENCE_CUR: u8 = 1;
pub const WHENCE_END: u8 = 2;

// Rights bits granted on every virtual descriptor.
pub const RIGHTS_FD_READ: u64 = 0x2;
pub const RIGHTS_FD_ADVISE: u64 = 0x80;
pub const RIGHTS_PATH_OPEN: u64 = 0x2000;
pub const RIGHTS_FD_READDIR: u64 = 0x4000;
pub const RIGHTS_FD_FILESTAT_GET: u64 = 0x200000;

/// The fixed read-only rights mask: read, advise, path_open, readdir and
/// filestat_get, both as base and as inheriting rights.
pub const READ_ONLY_RIGHTS: u64 = 0x2 | 0x80 | 0x2000 | 0x4000 | 0x200000;

// Preopen tags.
pub const PREOPENTYPE_DIR: u8 = 0;

/// Size in bytes of the fixed directory-entry header (d_next, d_ino,
/// d_namlen, d_type and three bytes of padding).
pub const DIRENT_HEADER_SIZE: usize = 24;

/// The first directory cookie.
pub const DIRCOOKIE_START: u64 = 0;

} // verus!
