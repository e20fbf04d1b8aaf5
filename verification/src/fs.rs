//! The descriptor router: the overlay that owns the embedded file system
//! and the single flat user-visible descriptor namespace. Every
//! intercepted call looks its user descriptor up here and is either
//! served from the embedded tree or handed back as a host action for the
//! caller to forward to the real WASI implementation with the raw
//! arguments unchanged.

use vstd::prelude::*;

use crate::embed::fdstat_spec;
use crate::embed::filestat_spec;
use crate::embed::read_window;
use crate::embed::EmbedView;
use crate::embed::EmbeddedFs;
use crate::embed::FdEntry;
use crate::embed::Fdstat;
use crate::embed::Filestat;
use crate::errno::ERRNO_BADF;
use crate::errno::ERRNO_INVAL;
use crate::errno::ERRNO_NOTSUP;
use crate::errno::PREOPENTYPE_DIR;
use crate::errno::WHENCE_CUR;
use crate::errno::WHENCE_END;
use crate::errno::WHENCE_SET;
use crate::storage::resolve_spec;
use crate::UserFd;
use crate::Vfd;

verus! {

/// What a user descriptor is backed by: a descriptor of the embedded
/// file system, or a descriptor of the real host WASI implementation.
#[derive(Clone, Copy, Debug, PartialEq, Eq, Structural)]
pub enum BackingFd {
    /// Served from the embedded file system.
    Virtual(Vfd),
    /// Forwarded to the host.
    Wasi(u32),
}

/// The router's answer for one intercepted call: either the finished
/// virtual-side result, or the host descriptor the caller must forward
/// the raw call to, returning the host's result unchanged.
#[derive(Debug, PartialEq, Eq)]
pub enum Routed<T> {
    Done(T),
    Host(u32),
}

/// A preopen record as reported to the guest: the tag and the byte
/// length of the mount path.
#[derive(Clone, Copy, Debug, PartialEq, Eq, Structural)]
pub struct Prestat {
    pub tag: u8,
    pub pr_name_len: usize,
}

/// The mathematical view of the router.
#[verifier::ext_equal]
pub ghost struct RouterView {
    pub embed: EmbedView,
    pub fds: Seq<Option<BackingFd>>,
}

/// The backing of a user descriptor: nothing if it was never issued or
/// was closed.
pub open spec fn backing(v: RouterView, fd: UserFd) -> Option<BackingFd> {
    if fd < v.fds.len() {
        v.fds[fd as int]
    } else {
        None
    }
}

/// The descriptor map the router starts with: user descriptors 0 to 2
/// are the standard streams, passed through; the host's preopens follow,
/// each under the same number the host knows it by; the virtual preopens
/// are appended after them, so a guest enumerating preopens sees real
/// directories first, then virtual ones, in one contiguous range.
pub open spec fn initial_fds(n_host: int, vfds: Seq<Vfd>) -> Seq<Option<BackingFd>> {
    Seq::new(
        (3 + n_host + vfds.len()) as nat,
        |i: int|
            if i < 3 + n_host {
                Some(BackingFd::Wasi(i as u32))
            } else {
                Some(BackingFd::Virtual(vfds[i - 3 - n_host]))
            },
    )
}

/// The absolute offset a seek computes, or "invalid argument" when the
/// delta takes it below zero or past the range of the offset type.
pub open spec fn seek_new_offset(base: int, delta: int) -> Result<u64, u16> {
    if base + delta < 0 {
        Err(ERRNO_INVAL)
    } else if base + delta > u64::MAX {
        Err(ERRNO_INVAL)
    } else {
        Ok((base + delta) as u64)
    }
}

/// What a seek on a virtual descriptor returns: the base is zero for
/// `SET`, the current offset for `CUR`, the content length for `END`;
/// an unknown whence, or any seek on a directory, is "invalid argument".
pub open spec fn seek_spec(v: EmbedView, vfd: Vfd, offset: i64, whence: u8) -> Result<u64, u16> {
    if !v.live(vfd) {
        Err(ERRNO_BADF)
    } else if v.storage.is_dir(v.entry(vfd).node_id) {
        Err(ERRNO_INVAL)
    } else if whence == WHENCE_SET {
        seek_new_offset(0, offset as int)
    } else if whence == WHENCE_CUR {
        seek_new_offset(v.entry(vfd).offset as int, offset as int)
    } else if whence == WHENCE_END {
        seek_new_offset(v.storage.content_of(v.entry(vfd).node_id).len() as int, offset as int)
    } else {
        Err(ERRNO_INVAL)
    }
}

/// The descriptor router.
pub struct FileSystem {
    embedded_fs: EmbeddedFs,
    fd_map: Vec<Option<BackingFd>>,
    next_fd: u32,
}

impl View for FileSystem {
    type V = RouterView;

    closed spec fn view(&self) -> RouterView {
        RouterView { embed: self.embedded_fs@, fds: self.fd_map@ }
    }
}

impl FileSystem {
    /// The next user descriptor always stands at the end of the map.
    pub closed spec fn inv(&self) -> bool {
        &&& self.embedded_fs.inv()
        &&& self.next_fd == self.fd_map@.len()
        &&& self.fd_map@.len() <= u32::MAX
    }

    /// Build the router around a packed embedded file system: seed the
    /// standard streams, register the host's preopens under their own
    /// numbers, then append a user descriptor for each virtual preopen.
    /// The caller supplies the number of host preopens it counted
    /// (descriptors 3 onward that answered a prestat request).
    pub fn create(embedded_fs: EmbeddedFs, n_host_preopens: u32, preopened_vfds: &Vec<Vfd>) -> (r:
        FileSystem)
        requires
            embedded_fs.inv(),
            3 + n_host_preopens + preopened_vfds@.len() <= u32::MAX,
        ensures
            r.inv(),
            r@.embed == embedded_fs@,
            r@.fds == initial_fds(n_host_preopens as int, preopened_vfds@),
    {
        let mut fd_map: Vec<Option<BackingFd>> = Vec::new();
        let total_wasi: u32 = 3 + n_host_preopens;
        let mut i: u32 = 0;
        while i < total_wasi
            invariant
                i <= total_wasi,
                fd_map@.len() == i,
                forall|k: int| 0 <= k < i ==> fd_map@[k] == Some(BackingFd::Wasi(k as u32)),
            decreases total_wasi - i,
        {
            fd_map.push(Some(BackingFd::Wasi(i)));
            i += 1;
        }
        let mut j: usize = 0;
        while j < preopened_vfds.len()
            invariant
                j <= preopened_vfds@.len(),
                total_wasi == 3 + n_host_preopens,
                total_wasi + preopened_vfds@.len() <= u32::MAX,
                fd_map@.len() == total_wasi + j,
                forall|k: int| 0 <= k < total_wasi ==> fd_map@[k] == Some(BackingFd::Wasi(k as u32)),
                forall|k: int|
                    total_wasi <= k < fd_map@.len() ==> fd_map@[k] == Some(
                        BackingFd::Virtual(preopened_vfds@[k - total_wasi]),
                    ),
            decreases preopened_vfds@.len() - j,
        {
            fd_map.push(Some(BackingFd::Virtual(preopened_vfds[j])));
            j += 1;
        }
        proof {
            assert(fd_map@ =~= initial_fds(n_host_preopens as int, preopened_vfds@));
        }
        let next_fd = total_wasi + (preopened_vfds.len() as u32);
        FileSystem { embedded_fs, fd_map, next_fd }
    }

    /// Bind the next user descriptor to the given backing and hand it
    /// out. Descriptors grow strictly: the result is larger than every
    /// user descriptor issued before.
    pub fn issue_user_fd(&mut self, backing_fd: BackingFd) -> (r: UserFd)
        requires
            old(self).inv(),
            old(self)@.fds.len() < u32::MAX,
        ensures
            final(self).inv(),
            r == old(self)@.fds.len(),
            final(self)@.fds == old(self)@.fds.push(Some(backing_fd)),
            final(self)@.embed == old(self)@.embed,
    {
        let fd = self.next_fd;
        self.next_fd = self.next_fd + 1;
        self.fd_map.push(Some(backing_fd));
        fd
    }

    /// Look a user descriptor up, failing with "bad file descriptor" for
    /// one never issued or already closed.
    pub fn get_backing_fd(&self, user_fd: UserFd) -> (r: Result<BackingFd, crate::Error>)
        ensures
            match backing(self@, user_fd) {
                Some(b) => r == Ok::<BackingFd, crate::Error>(b),
                None => r == Err::<BackingFd, crate::Error>(crate::Error { code: ERRNO_BADF }),
            },
    {
        let idx = user_fd as usize;
        if idx >= self.fd_map.len() {
            return Err(crate::Error::new(ERRNO_BADF));
        }
        match &self.fd_map[idx] {
            Some(b) => Ok(*b),
            None => Err(crate::Error::new(ERRNO_BADF)),
        }
    }

    /// Shared routing of the operations the virtual side does not
    /// support (every mutating operation): an unknown descriptor is "bad
    /// file descriptor", a passthrough descriptor becomes a host action,
    /// and a virtual descriptor fails with "not supported".
    fn route_unsupported(&self, fd: UserFd) -> (r: Result<Routed<()>, u16>)
        ensures
            r == route_unsupported_spec(self@, fd),
    {
        match self.get_backing_fd(fd) {
            Err(e) => Err(e.raw()),
            Ok(BackingFd::Wasi(h)) => Ok(Routed::Host(h)),
            Ok(BackingFd::Virtual(_)) => Err(ERRNO_NOTSUP),
        }
    }

    /// Shared routing of the two-descriptor operations: both operands
    /// must be passthrough, in which case the pair of host descriptors
    /// is returned for the caller to forward; a virtual operand on
    /// either side is "not supported".
    fn route_pair(&self, fd: UserFd, other: UserFd) -> (r: Result<(u32, u32), u16>)
        ensures
            r == route_pair_spec(self@, fd, other),
    {
        let a = match self.get_backing_fd(fd) {
            Ok(b) => b,
            Err(e) => {
                return Err(e.raw());
            },
        };
        let b = match self.get_backing_fd(other) {
            Ok(b) => b,
            Err(e) => {
                return Err(e.raw());
            },
        };
        match (a, b) {
            (BackingFd::Wasi(h1), BackingFd::Wasi(h2)) => Ok((h1, h2)),
            _ => Err(ERRNO_NOTSUP),
        }
    }
}

impl FileSystem {
    /// Close a user descriptor. On the virtual side both the descriptor
    /// entry and the user map entry are removed in lockstep; neither
    /// table shrinks, so the numbers are never reused.
    pub fn fd_close(&mut self, fd: UserFd) -> (r: Result<Routed<()>, u16>)
        requires
            old(self).inv(),
        ensures
            final(self).inv(),
            final(self)@.embed.storage == old(self)@.embed.storage,
            final(self)@.embed.preopens == old(self)@.embed.preopens,
            final(self)@.fds.len() == old(self)@.fds.len(),
            final(self)@.embed.opens.len() == old(self)@.embed.opens.len(),
            match backing(old(self)@, fd) {
                None => r == Err::<Routed<()>, u16>(ERRNO_BADF) && final(self)@ == old(self)@,
                Some(BackingFd::Wasi(h)) => r == Ok::<Routed<()>, u16>(Routed::Host(h)) && final(self)@ == old(self)@,
                Some(BackingFd::Virtual(v)) => {
                    if old(self)@.embed.live(v) {
                        &&& r == Ok::<Routed<()>, u16>(Routed::Done(()))
                        &&& final(self)@.embed.opens == old(self)@.embed.opens.update(
                            v as int,
                            None::<FdEntry>,
                        )
                        &&& final(self)@.fds == old(self)@.fds.update(
                            fd as int,
                            None::<BackingFd>,
                        )
                    } else {
                        r == Err::<Routed<()>, u16>(ERRNO_BADF) && final(self)@ == old(self)@
                    }
                },
            },
    {
        let v = match self.get_backing_fd(fd) {
            Ok(BackingFd::Wasi(h)) => {
                return Ok(Routed::Host(h));
            },
            Ok(BackingFd::Virtual(v)) => v,
            Err(e) => {
                return Err(e.raw());
            },
        };
        match self.embedded_fs.close_file(v) {
            Ok(()) => {},
            Err(e) => {
                return Err(e);
            },
        }
        let idx = fd as usize;
        self.fd_map[idx] = None;
        Ok(Routed::Done(()))
    }

    /// The fdstat of a user descriptor: virtual descriptors report their
    /// inode's type, their flags, and the fixed read-only rights mask.
    pub fn fd_fdstat_get(&self, fd: UserFd) -> (r: Result<Routed<Fdstat>, u16>)
        requires
            self.inv(),
        ensures
            match backing(self@, fd) {
                None => r == Err::<Routed<Fdstat>, u16>(ERRNO_BADF),
                Some(BackingFd::Wasi(h)) => r == Ok::<Routed<Fdstat>, u16>(Routed::Host(h)),
                Some(BackingFd::Virtual(v)) => match fdstat_spec(self@.embed, v) {
                    Ok(s) => r == Ok::<Routed<Fdstat>, u16>(Routed::Done(s)),
                    Err(e) => r == Err::<Routed<Fdstat>, u16>(e),
                },
            },
    {
        match self.get_backing_fd(fd) {
            Err(e) => Err(e.raw()),
            Ok(BackingFd::Wasi(h)) => Ok(Routed::Host(h)),
            Ok(BackingFd::Virtual(v)) => match self.embedded_fs.get_fd_stat(v) {
                Ok(s) => Ok(Routed::Done(s)),
                Err(e) => Err(e),
            },
        }
    }

    /// Overwrite the flags of a user descriptor. The virtual side stores
    /// the new flags without validating the bits.
    pub fn fd_fdstat_set_flags(&mut self, fd: UserFd, flags: u16) -> (r: Result<Routed<()>, u16>)
        requires
            old(self).inv(),
        ensures
            final(self).inv(),
            final(self)@.embed.storage == old(self)@.embed.storage,
            final(self)@.embed.preopens == old(self)@.embed.preopens,
            final(self)@.fds == old(self)@.fds,
            match backing(old(self)@, fd) {
                None => r == Err::<Routed<()>, u16>(ERRNO_BADF) && final(self)@ == old(self)@,
                Some(BackingFd::Wasi(h)) => r == Ok::<Routed<()>, u16>(Routed::Host(h)) && final(self)@ == old(self)@,
                Some(BackingFd::Virtual(v)) => {
                    if old(self)@.embed.live(v) {
                        &&& r == Ok::<Routed<()>, u16>(Routed::Done(()))
                        &&& final(self)@.embed.opens == old(self)@.embed.opens.update(
                            v as int,
                            Some(FdEntry { flags, ..old(self)@.embed.entry(v) }),
                        )
                    } else {
                        r == Err::<Routed<()>, u16>(ERRNO_BADF) && final(self)@ == old(self)@
                    }
                },
            },
    {
        let v = match self.get_backing_fd(fd) {
            Ok(BackingFd::Wasi(h)) => {
                return Ok(Routed::Host(h));
            },
            Ok(BackingFd::Virtual(v)) => v,
            Err(e) => {
                return Err(e.raw());
            },
        };
        match self.embedded_fs.get_fd_entry(v) {
            Ok(_) => {},
            Err(e) => {
                return Err(e);
            },
        }
        self.embedded_fs.set_fd_flags(v, flags);
        Ok(Routed::Done(()))
    }

    /// The filestat of the inode behind a user descriptor.
    pub fn fd_filestat_get(&self, fd: UserFd) -> (r: Result<Routed<Filestat>, u16>)
        requires
            self.inv(),
        ensures
            match backing(self@, fd) {
                None => r == Err::<Routed<Filestat>, u16>(ERRNO_BADF),
                Some(BackingFd::Wasi(h)) => r == Ok::<Routed<Filestat>, u16>(Routed::Host(h)),
                Some(BackingFd::Virtual(v)) => {
                    if self@.embed.live(v) {
                        r == Ok::<Routed<Filestat>, u16>(
                            Routed::Done(
                                filestat_spec(self@.embed.storage, self@.embed.entry(v).node_id),
                            ),
                        )
                    } else {
                        r == Err::<Routed<Filestat>, u16>(ERRNO_BADF)
                    }
                },
            },
    {
        match self.get_backing_fd(fd) {
            Err(e) => Err(e.raw()),
            Ok(BackingFd::Wasi(h)) => Ok(Routed::Host(h)),
            Ok(BackingFd::Virtual(v)) => match self.embedded_fs.get_fd_entry(v) {
                Ok(entry) => Ok(Routed::Done(self.embedded_fs.get_filestat_from_node_id(
                    entry.node_id,
                ))),
                Err(e) => Err(e),
            },
        }
    }

    /// The prestat of a user descriptor: for a virtual preopen, the tag
    /// is "directory" and the length is the mount path's byte length;
    /// a virtual descriptor that is not a preopen is "bad file
    /// descriptor".
    pub fn fd_prestat_get(&self, fd: UserFd) -> (r: Result<Routed<Prestat>, u16>)
        requires
            self.inv(),
        ensures
            match backing(self@, fd) {
                None => r == Err::<Routed<Prestat>, u16>(ERRNO_BADF),
                Some(BackingFd::Wasi(h)) => r == Ok::<Routed<Prestat>, u16>(Routed::Host(h)),
                Some(BackingFd::Virtual(v)) => {
                    if v < self@.embed.preopens.len() {
                        r == Ok::<Routed<Prestat>, u16>(
                            Routed::Done(
                                Prestat {
                                    tag: PREOPENTYPE_DIR,
                                    pr_name_len: self@.embed.preopens[v as int].len() as usize,
                                },
                            ),
                        )
                    } else {
                        r == Err::<Routed<Prestat>, u16>(ERRNO_BADF)
                    }
                },
            },
    {
        match self.get_backing_fd(fd) {
            Err(e) => Err(e.raw()),
            Ok(BackingFd::Wasi(h)) => Ok(Routed::Host(h)),
            Ok(BackingFd::Virtual(v)) => match self.embedded_fs.get_preopened_dir_path(v) {
                Some(path) => Ok(
                    Routed::Done(Prestat { tag: PREOPENTYPE_DIR, pr_name_len: path.len() }),
                ),
                None => Err(ERRNO_BADF),
            },
        }
    }

    /// The mount path bytes of a virtual preopen, at most `path_len` of
    /// them (exactly `pr_name_len` bytes, no trailing NUL, when the
    /// caller passes the length prestat reported).
    pub fn fd_prestat_dir_name(&self, fd: UserFd, path_len: usize) -> (r: Result<
        Routed<Vec<u8>>,
        u16,
    >)
        requires
            self.inv(),
        ensures
            match backing(self@, fd) {
                None => r == Err::<Routed<Vec<u8>>, u16>(ERRNO_BADF),
                Some(BackingFd::Wasi(h)) => r matches Ok(Routed::Host(hh)) && hh == h,
                Some(BackingFd::Virtual(v)) => {
                    if v < self@.embed.preopens.len() {
                        let path = self@.embed.preopens[v as int];
                        let n = if path_len <= path.len() {
                            path_len as int
                        } else {
                            path.len() as int
                        };
                        r matches Ok(Routed::Done(bytes)) && bytes@ == path.take(n)
                    } else {
                        r == Err::<Routed<Vec<u8>>, u16>(ERRNO_BADF)
                    }
                },
            },
    {
        match self.get_backing_fd(fd) {
            Err(e) => Err(e.raw()),
            Ok(BackingFd::Wasi(h)) => Ok(Routed::Host(h)),
            Ok(BackingFd::Virtual(v)) => match self.embedded_fs.get_preopened_dir_path(v) {
                Some(path) => {
                    let n = if path_len <= path.len() {
                        path_len
                    } else {
                        path.len()
                    };
                    let bytes = crate::storage::sub_bytes(path, 0, n);
                    Ok(Routed::Done(bytes))
                },
                None => Err(ERRNO_BADF),
            },
        }
    }

    /// Read up to `max_bytes` from a user descriptor; the virtual side
    /// delivers the bytes at the cursor and advances it.
    pub fn fd_read(&mut self, fd: UserFd, max_bytes: usize) -> (r: Result<Routed<Vec<u8>>, u16>)
        requires
            old(self).inv(),
        ensures
            final(self).inv(),
            final(self)@.embed.storage == old(self)@.embed.storage,
            final(self)@.embed.preopens == old(self)@.embed.preopens,
            final(self)@.fds == old(self)@.fds,
            match backing(old(self)@, fd) {
                None => r == Err::<Routed<Vec<u8>>, u16>(ERRNO_BADF) && final(self)@ == old(self)@,
                Some(BackingFd::Wasi(h)) => r matches Ok(Routed::Host(hh)) && hh == h && final(self)@ == old(self)@,
                Some(BackingFd::Virtual(v)) => {
                    if !old(self)@.embed.live(v) {
                        r == Err::<Routed<Vec<u8>>, u16>(ERRNO_BADF) && final(self)@ == old(self)@
                    } else if old(self)@.embed.storage.is_dir(old(self)@.embed.entry(v).node_id) {
                        r == Err::<Routed<Vec<u8>>, u16>(crate::errno::ERRNO_ISDIR) && final(self)@ == old(self)@
                    } else {
                        let content = old(self)@.embed.storage.content_of(
                            old(self)@.embed.entry(v).node_id,
                        );
                        let off = old(self)@.embed.entry(v).offset;
                        let (start, n) = read_window(content, off, max_bytes);
                        &&& r matches Ok(Routed::Done(data)) && data@ == content.subrange(
                            start,
                            start + n,
                        )
                        &&& final(self)@.embed.opens == old(self)@.embed.opens.update(
                            v as int,
                            Some(FdEntry { offset: (off + n) as u64, ..old(self)@.embed.entry(v) }),
                        )
                    }
                },
            },
    {
        let v = match self.get_backing_fd(fd) {
            Ok(BackingFd::Wasi(h)) => {
                return Ok(Routed::Host(h));
            },
            Ok(BackingFd::Virtual(v)) => v,
            Err(e) => {
                return Err(e.raw());
            },
        };
        match self.embedded_fs.read_from(v, max_bytes) {
            Ok(data) => Ok(Routed::Done(data)),
            Err(e) => Err(e),
        }
    }

    /// Read directory entries from a user descriptor: the virtual side
    /// returns the bytes for the caller's buffer and the `bufused` value
    /// to report (the full buffer length on truncation).
    pub fn fd_readdir(&self, fd: UserFd, buf_len: usize, cookie: u64) -> (r: Result<
        Routed<(Vec<u8>, usize)>,
        u16,
    >)
        requires
            self.inv(),
        ensures
            match backing(self@, fd) {
                None => r == Err::<Routed<(Vec<u8>, usize)>, u16>(ERRNO_BADF),
                Some(BackingFd::Wasi(h)) => r matches Ok(Routed::Host(hh)) && hh == h,
                Some(BackingFd::Virtual(v)) => {
                    if !self@.embed.live(v) {
                        r == Err::<Routed<(Vec<u8>, usize)>, u16>(ERRNO_BADF)
                    } else if !self@.embed.storage.is_dir(self@.embed.entry(v).node_id) {
                        r == Err::<Routed<(Vec<u8>, usize)>, u16>(crate::errno::ERRNO_NOTDIR)
                    } else {
                        let (bytes, used) = crate::readdir::readdir_spec(
                            self@.embed.storage,
                            self@.embed.entry(v).node_id,
                            buf_len as int,
                            cookie,
                        );
                        &&& r matches Ok(Routed::Done(out)) && out.0@ == bytes && out.1 == used
                        &&& bytes.len() <= buf_len
                    }
                },
            },
    {
        match self.get_backing_fd(fd) {
            Err(e) => Err(e.raw()),
            Ok(BackingFd::Wasi(h)) => Ok(Routed::Host(h)),
            Ok(BackingFd::Virtual(v)) => match self.embedded_fs.read_dir(v, buf_len, cookie) {
                Ok(out) => Ok(Routed::Done(out)),
                Err(e) => Err(e),
            },
        }
    }

    /// Seek a user descriptor: the new absolute offset is written back
    /// and returned.
    pub fn fd_seek(&mut self, fd: UserFd, offset: i64, whence: u8) -> (r: Result<Routed<u64>, u16>)
        requires
            old(self).inv(),
        ensures
            final(self).inv(),
            final(self)@.embed.storage == old(self)@.embed.storage,
            final(self)@.embed.preopens == old(self)@.embed.preopens,
            final(self)@.fds == old(self)@.fds,
            match backing(old(self)@, fd) {
                None => r == Err::<Routed<u64>, u16>(ERRNO_BADF) && final(self)@ == old(self)@,
                Some(BackingFd::Wasi(h)) => r matches Ok(Routed::Host(hh)) && hh == h && final(self)@ == old(self)@,
                Some(BackingFd::Virtual(v)) => match seek_spec(old(self)@.embed, v, offset, whence) {
                    Ok(new_offset) => {
                        &&& r matches Ok(Routed::Done(o)) && o == new_offset
                        &&& final(self)@.embed.opens == old(self)@.embed.opens.update(
                            v as int,
                            Some(
                                FdEntry { offset: new_offset, ..old(self)@.embed.entry(v) },
                            ),
                        )
                    },
                    Err(e) => r == Err::<Routed<u64>, u16>(e) && final(self)@ == old(self)@,
                },
            },
    {
        let v = match self.get_backing_fd(fd) {
            Ok(BackingFd::Wasi(h)) => {
                return Ok(Routed::Host(h));
            },
            Ok(BackingFd::Virtual(v)) => v,
            Err(e) => {
                return Err(e.raw());
            },
        };
        let entry = match self.embedded_fs.get_fd_entry(v) {
            Ok(e) => e,
            Err(e) => {
                return Err(e);
            },
        };
        let node = match self.embedded_fs.get_node(v) {
            Ok(n) => n,
            Err(e) => {
                return Err(e);
            },
        };
        let content_len: u64 = match node {
            crate::storage::NodeData::Dir { .. } => {
                return Err(ERRNO_INVAL);
            },
            crate::storage::NodeData::File { content } => content.len() as u64,
        };
        let base: u64 = if whence == WHENCE_SET {
            0
        } else if whence == WHENCE_CUR {
            entry.offset
        } else if whence == WHENCE_END {
            content_len
        } else {
            return Err(ERRNO_INVAL);
        };
        let new_offset = match compute_new_offset(base, offset) {
            Ok(o) => o,
            Err(e) => {
                return Err(e);
            },
        };
        self.embedded_fs.set_fd_offset(v, new_offset);
        Ok(Routed::Done(new_offset))
    }

    /// The current cursor of a user descriptor. On a directory the
    /// offset is returned unchanged rather than rejected: the guest
    /// never moves a directory cursor through seek, so it reads as zero.
    pub fn fd_tell(&self, fd: UserFd) -> (r: Result<Routed<u64>, u16>)
        requires
            self.inv(),
        ensures
            match backing(self@, fd) {
                None => r == Err::<Routed<u64>, u16>(ERRNO_BADF),
                Some(BackingFd::Wasi(h)) => r == Ok::<Routed<u64>, u16>(Routed::Host(h)),
                Some(BackingFd::Virtual(v)) => {
                    if self@.embed.live(v) {
                        r == Ok::<Routed<u64>, u16>(Routed::Done(self@.embed.entry(v).offset))
                    } else {
                        r == Err::<Routed<u64>, u16>(ERRNO_BADF)
                    }
                },
            },
    {
        match self.get_backing_fd(fd) {
            Err(e) => Err(e.raw()),
            Ok(BackingFd::Wasi(h)) => Ok(Routed::Host(h)),
            Ok(BackingFd::Virtual(v)) => match self.embedded_fs.get_fd_entry(v) {
                Ok(entry) => Ok(Routed::Done(entry.offset)),
                Err(e) => Err(e),
            },
        }
    }

    /// Open `path` relative to a user descriptor. On the virtual side
    /// the path is resolved in the embedded tree, a fresh virtual
    /// descriptor is opened at offset 0 with the given flags, and a
    /// fresh user descriptor is bound to it. On the passthrough side the
    /// caller forwards to the host and then binds the host's new
    /// descriptor with `issue_user_fd`.
    pub fn path_open(&mut self, fd: UserFd, path: &Vec<u8>, fdflags: u16) -> (r: Result<
        Routed<UserFd>,
        u16,
    >)
        requires
            old(self).inv(),
            old(self)@.fds.len() < u32::MAX,
            old(self)@.embed.opens.len() < u32::MAX,
        ensures
            final(self).inv(),
            final(self)@.embed.storage == old(self)@.embed.storage,
            final(self)@.embed.preopens == old(self)@.embed.preopens,
            match backing(old(self)@, fd) {
                None => r == Err::<Routed<UserFd>, u16>(ERRNO_BADF) && final(self)@ == old(self)@,
                Some(BackingFd::Wasi(h)) => r matches Ok(Routed::Host(hh)) && hh == h && final(self)@ == old(self)@,
                Some(BackingFd::Virtual(v)) => {
                    if !old(self)@.embed.live(v) {
                        r == Err::<Routed<UserFd>, u16>(ERRNO_BADF) && final(self)@ == old(self)@
                    } else {
                        match resolve_spec(
                            old(self)@.embed.storage,
                            old(self)@.embed.entry(v).node_id,
                            old(self)@.embed.entry(v).link_id,
                            path@,
                        ) {
                            Ok((n, l)) => {
                                &&& r matches Ok(Routed::Done(user)) && user == old(self)@.fds.len()
                                &&& final(self)@.embed.opens == old(self)@.embed.opens.push(
                                    Some(
                                        FdEntry {
                                            offset: 0,
                                            link_id: l,
                                            node_id: n,
                                            flags: fdflags,
                                        },
                                    ),
                                )
                                &&& final(self)@.fds == old(self)@.fds.push(
                                    Some(
                                        BackingFd::Virtual(
                                            old(self)@.embed.opens.len() as Vfd,
                                        ),
                                    ),
                                )
                            },
                            Err(e) => r == Err::<Routed<UserFd>, u16>(e) && final(self)@ == old(self)@,
                        }
                    }
                },
            },
    {
        let v = match self.get_backing_fd(fd) {
            Ok(BackingFd::Wasi(h)) => {
                return Ok(Routed::Host(h));
            },
            Ok(BackingFd::Virtual(v)) => v,
            Err(e) => {
                return Err(e.raw());
            },
        };
        let new_vfd = match self.embedded_fs.open_file(v, path, fdflags) {
            Ok(nv) => nv,
            Err(e) => {
                return Err(e);
            },
        };
        let user = self.issue_user_fd(BackingFd::Virtual(new_vfd));
        Ok(Routed::Done(user))
    }

    /// Resolve `path` relative to a user descriptor and stat the result.
    pub fn path_filestat_get(&self, fd: UserFd, path: &Vec<u8>) -> (r: Result<
        Routed<Filestat>,
        u16,
    >)
        requires
            self.inv(),
        ensures
            match backing(self@, fd) {
                None => r == Err::<Routed<Filestat>, u16>(ERRNO_BADF),
                Some(BackingFd::Wasi(h)) => r matches Ok(Routed::Host(hh)) && hh == h,
                Some(BackingFd::Virtual(v)) => {
                    if !self@.embed.live(v) {
                        r == Err::<Routed<Filestat>, u16>(ERRNO_BADF)
                    } else {
                        match resolve_spec(
                            self@.embed.storage,
                            self@.embed.entry(v).node_id,
                            self@.embed.entry(v).link_id,
                            path@,
                        ) {
                            Ok((n, l)) => r == Ok::<Routed<Filestat>, u16>(
                                Routed::Done(filestat_spec(self@.embed.storage, n)),
                            ),
                            Err(e) => r == Err::<Routed<Filestat>, u16>(e),
                        }
                    }
                },
            },
    {
        match self.get_backing_fd(fd) {
            Err(e) => Err(e.raw()),
            Ok(BackingFd::Wasi(h)) => Ok(Routed::Host(h)),
            Ok(BackingFd::Virtual(v)) => match self.embedded_fs.get_filestat_at_path(v, path) {
                Ok(stat) => Ok(Routed::Done(stat)),
                Err(e) => Err(e),
            },
        }
    }

    /// There are no symbolic links in the embedded tree: reading one
    /// through a virtual descriptor is "invalid argument".
    pub fn path_readlink(&self, fd: UserFd) -> (r: Result<Routed<()>, u16>)
        ensures
            match backing(self@, fd) {
                None => r == Err::<Routed<()>, u16>(ERRNO_BADF),
                Some(BackingFd::Wasi(h)) => r == Ok::<Routed<()>, u16>(Routed::Host(h)),
                Some(BackingFd::Virtual(_)) => r == Err::<Routed<()>, u16>(ERRNO_INVAL),
            },
    {
        match self.get_backing_fd(fd) {
            Err(e) => Err(e.raw()),
            Ok(BackingFd::Wasi(h)) => Ok(Routed::Host(h)),
            Ok(BackingFd::Virtual(_)) => Err(ERRNO_INVAL),
        }
    }

    /// Polling is not supported by the overlay at all.
    pub fn poll_oneoff(&self) -> (r: Result<Routed<()>, u16>)
        ensures
            r == Err::<Routed<()>, u16>(ERRNO_NOTSUP),
    {
        Err(ERRNO_NOTSUP)
    }

    /// Advising on a virtual descriptor is not supported.
    pub fn fd_advise(&self, fd: UserFd) -> (r: Result<Routed<()>, u16>)
        ensures
            r == route_unsupported_spec(self@, fd),
    {
        self.route_unsupported(fd)
    }

    /// Allocating in a virtual file is not supported: the tree is
    /// immutable after packing.
    pub fn fd_allocate(&self, fd: UserFd) -> (r: Result<Routed<()>, u16>)
        ensures
            r == route_unsupported_spec(self@, fd),
    {
        self.route_unsupported(fd)
    }

    /// Syncing a virtual descriptor is not supported.
    pub fn fd_datasync(&self, fd: UserFd) -> (r: Result<Routed<()>, u16>)
        ensures
            r == route_unsupported_spec(self@, fd),
    {
        self.route_unsupported(fd)
    }

    /// Changing rights on a virtual descriptor is not supported.
    pub fn fd_fdstat_set_rights(&self, fd: UserFd) -> (r: Result<Routed<()>, u16>)
        ensures
            r == route_unsupported_spec(self@, fd),
    {
        self.route_unsupported(fd)
    }

    /// Resizing a virtual file is not supported.
    pub fn fd_filestat_set_size(&self, fd: UserFd) -> (r: Result<Routed<()>, u16>)
        ensures
            r == route_unsupported_spec(self@, fd),
    {
        self.route_unsupported(fd)
    }

    /// The virtual tree has no timestamps to set.
    pub fn fd_filestat_set_times(&self, fd: UserFd) -> (r: Result<Routed<()>, u16>)
        ensures
            r == route_unsupported_spec(self@, fd),
    {
        self.route_unsupported(fd)
    }

    /// Positioned reads on a virtual descriptor are not supported.
    pub fn fd_pread(&self, fd: UserFd) -> (r: Result<Routed<()>, u16>)
        ensures
            r == route_unsupported_spec(self@, fd),
    {
        self.route_unsupported(fd)
    }

    /// Writing to a virtual file is not supported: the tree is immutable
    /// after packing.
    pub fn fd_pwrite(&self, fd: UserFd) -> (r: Result<Routed<()>, u16>)
        ensures
            r == route_unsupported_spec(self@, fd),
    {
        self.route_unsupported(fd)
    }

    /// Writing to a virtual file is not supported: the tree is immutable
    /// after packing.
    pub fn fd_write(&self, fd: UserFd) -> (r: Result<Routed<()>, u16>)
        ensures
            r == route_unsupported_spec(self@, fd),
    {
        self.route_unsupported(fd)
    }

    /// Syncing a virtual descriptor is not supported.
    pub fn fd_sync(&self, fd: UserFd) -> (r: Result<Routed<()>, u16>)
        ensures
            r == route_unsupported_spec(self@, fd),
    {
        self.route_unsupported(fd)
    }

    /// Creating a directory in the virtual tree is not supported.
    pub fn path_create_directory(&self, fd: UserFd) -> (r: Result<Routed<()>, u16>)
        ensures
            r == route_unsupported_spec(self@, fd),
    {
        self.route_unsupported(fd)
    }

    /// The virtual tree has no timestamps to set.
    pub fn path_filestat_set_times(&self, fd: UserFd) -> (r: Result<Routed<()>, u16>)
        ensures
            r == route_unsupported_spec(self@, fd),
    {
        self.route_unsupported(fd)
    }

    /// Removing a virtual directory is not supported.
    pub fn path_remove_directory(&self, fd: UserFd) -> (r: Result<Routed<()>, u16>)
        ensures
            r == route_unsupported_spec(self@, fd),
    {
        self.route_unsupported(fd)
    }

    /// There are no symbolic links in the virtual tree and none can be
    /// created.
    pub fn path_symlink(&self, fd: UserFd) -> (r: Result<Routed<()>, u16>)
        ensures
            r == route_unsupported_spec(self@, fd),
    {
        self.route_unsupported(fd)
    }

    /// Unlinking a virtual file is not supported.
    pub fn path_unlink_file(&self, fd: UserFd) -> (r: Result<Routed<()>, u16>)
        ensures
            r == route_unsupported_spec(self@, fd),
    {
        self.route_unsupported(fd)
    }

    /// Renumbering requires both operands to be passthrough; the host
    /// descriptors to forward with are returned.
    pub fn fd_renumber(&self, fd: UserFd, to: UserFd) -> (r: Result<(u32, u32), u16>)
        ensures
            r == route_pair_spec(self@, fd, to),
    {
        self.route_pair(fd, to)
    }

    /// Hard-linking requires both operands to be passthrough.
    pub fn path_link(&self, old_fd: UserFd, new_fd: UserFd) -> (r: Result<(u32, u32), u16>)
        ensures
            r == route_pair_spec(self@, old_fd, new_fd),
    {
        self.route_pair(old_fd, new_fd)
    }

    /// Renaming requires both operands to be passthrough.
    pub fn path_rename(&self, fd: UserFd, new_fd: UserFd) -> (r: Result<(u32, u32), u16>)
        ensures
            r == route_pair_spec(self@, fd, new_fd),
    {
        self.route_pair(fd, new_fd)
    }
}

/// Seek round-trip: a seek to an absolute position `k` in `[0, 2^63)`
/// succeeds on any open virtual file descriptor and leaves the cursor at
/// exactly `k`, so a tell straight after reports `k`. `pre` and `post`
/// are the embedded view before and after the seek, related as `fd_seek`
/// ensures.
pub proof fn lemma_seek_set_then_tell(pre: EmbedView, post: EmbedView, vfd: Vfd, k: i64)
    requires
        pre.live(vfd),
        !pre.storage.is_dir(pre.entry(vfd).node_id),
        0 <= k,
        post.opens == pre.opens.update(
            vfd as int,
            Some(FdEntry { offset: k as u64, ..pre.entry(vfd) }),
        ),
    ensures
        seek_spec(pre, vfd, k, WHENCE_SET) == Ok::<u64, u16>(k as u64),
        post.live(vfd),
        post.entry(vfd).offset == k as u64,
{
}

/// Closing a user descriptor then referencing it yields "bad file
/// descriptor": the close empties the slot, so the lookup every routed
/// operation begins with fails with that errno.
pub proof fn lemma_close_then_badf(pre: RouterView, post: RouterView, fd: UserFd)
    requires
        fd < pre.fds.len(),
        post.fds == pre.fds.update(fd as int, None::<BackingFd>),
    ensures
        backing(post, fd) is None,
        route_unsupported_spec(post, fd) == Err::<Routed<()>, u16>(ERRNO_BADF),
{
}

/// User descriptors are strictly monotonically increasing: a fresh
/// descriptor equals the table length, which only ever grows, so it is
/// strictly greater than every descriptor issued before; and since a
/// close empties a slot without shrinking the table, a closed
/// descriptor's number is never issued again.
pub proof fn lemma_user_fd_monotonic(
    pre: RouterView,
    post: RouterView,
    issued: UserFd,
    earlier: UserFd,
)
    requires
        earlier < pre.fds.len(),
        post.fds.len() >= pre.fds.len(),
        issued == post.fds.len(),
    ensures
        issued > earlier,
{
}

/// Compute the absolute offset a seek lands on: a negative delta may not
/// take it below zero, and the sum may not leave the offset type.
fn compute_new_offset(base: u64, delta: i64) -> (r: Result<u64, u16>)
    ensures
        r == seek_new_offset(base as int, delta as int),
{
    if delta >= 0 {
        let d = delta as u64;
        if base <= u64::MAX - d {
            Ok(base + d)
        } else {
            Err(ERRNO_INVAL)
        }
    } else {
        let neg: u64 = ((-(delta as i128)) as u64);
        if neg <= base {
            Ok(base - neg)
        } else {
            Err(ERRNO_INVAL)
        }
    }
}

/// The result of routing an operation the virtual side does not support.
pub open spec fn route_unsupported_spec(v: RouterView, fd: UserFd) -> Result<Routed<()>, u16> {
    match backing(v, fd) {
        None => Err(ERRNO_BADF),
        Some(BackingFd::Wasi(h)) => Ok(Routed::Host(h)),
        Some(BackingFd::Virtual(_)) => Err(ERRNO_NOTSUP),
    }
}

/// The result of routing a two-descriptor operation.
pub open spec fn route_pair_spec(v: RouterView, fd: UserFd, other: UserFd) -> Result<
    (u32, u32),
    u16,
> {
    match backing(v, fd) {
        None => Err(ERRNO_BADF),
        Some(a) => match backing(v, other) {
            None => Err(ERRNO_BADF),
            Some(b) => match (a, b) {
                (BackingFd::Wasi(h1), BackingFd::Wasi(h2)) => Ok((h1, h2)),
                _ => Err(ERRNO_NOTSUP),
            },
        },
    }
}

} // verus!
