//! A virtual file system overlay for WASI preview-1 guests.
//!
//! The crate models an embedded, in-memory tree of files and directories
//! that is packed into a wasm module at build time and served to the guest
//! through the ordinary WASI descriptor space, alongside the directories the
//! host preopens. The storage arena, path resolution, the embedded
//! file-system layer, the descriptor router and the packer's decision logic
//! all live here; the raw ABI shims and the host calls they forward to are
//! plain glue around this library.

use vstd::prelude::*;

pub mod cli;
pub mod embed;
pub mod errno;
pub mod fs;
pub mod packer;
pub mod readdir;
pub mod storage;

verus! {

/// User-facing file descriptor: the integer the guest sees.
pub type UserFd = u32;

/// Internal file descriptor issued by the embedded file system.
pub type Vfd = u32;

/// A WASI errno value carried as its raw wire representation.
#[derive(Clone, Copy, Debug, PartialEq, Eq, Structural)]
pub struct Error {
    /// The raw preview-1 errno value.
    pub code: u16,
}

impl Error {
    /// Wrap a raw errno value.
    pub fn new(code: u16) -> (r: Error)
        ensures
            r.code == code,
    {
        Error { code }
    }

    /// The raw errno value to hand back across the ABI.
    pub fn raw(self) -> (r: u16)
        ensures
            r == self.code,
    {
        self.code
    }

    /// The wrapped errno value, for contracts.
    pub open spec fn spec_raw(self) -> u16 {
        self.code
    }
}

impl From<u16> for Error {
    fn from(code: u16) -> (r: Error) {
        Error { code }
    }
}

impl vstd::std_specs::convert::FromSpecImpl<u16> for Error {
    open spec fn obeys_from_spec() -> bool {
        true
    }

    open spec fn from_spec(code: u16) -> Error {
        Error { code }
    }
}

/// Issues identifiers monotonically, starting from a caller-chosen base.
/// Identifiers are never reissued.
pub struct IdIssuer {
    next_id: u32,
}

impl IdIssuer {
    /// The identifier the next call to `issue` will return.
    pub closed spec fn spec_next(self) -> u32 {
        self.next_id
    }

    /// Create an issuer whose first identifier is `base`.
    pub fn new(base: u32) -> (r: IdIssuer)
        ensures
            r.spec_next() == base,
    {
        IdIssuer { next_id: base }
    }

    /// Hand out the next identifier and advance.
    pub fn issue(&mut self) -> (id: u32)
        requires
            old(self).spec_next() < u32::MAX,
        ensures
            id == old(self).spec_next(),
            final(self).spec_next() == old(self).spec_next() + 1,
    {
        let id = self.next_id;
        self.next_id = self.next_id + 1;
        id
    }
}

} // verus!
