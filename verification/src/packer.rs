//! The packing-time decision logic: parsing the records a host
//! `fd_readdir` call filled a buffer with (including the self-resizing
//! buffer protocol on truncation), the names to leave out of the walk,
//! the size limit above which a file is skipped, and the path
//! arithmetic of the recursive walk. The host calls themselves (readdir,
//! open, stat, read, close) are plain glue around these functions.

use vstd::prelude::*;
use vstd::bytes::spec_u32_from_le_bytes;
use vstd::bytes::spec_u64_from_le_bytes;
use vstd::bytes::u32_from_le_bytes;
use vstd::bytes::u64_from_le_bytes;

use crate::errno::DIRENT_HEADER_SIZE;
use crate::storage::sub_bytes;
use crate::storage::DOT;
use crate::storage::SLASH;

verus! {

/// A file of `2^32 - 1` bytes or more is skipped by the packer (with a
/// diagnostic): the embedded tree keeps every file below 4 GiB.
pub const FILE_SIZE_LIMIT: u64 = 0xffff_ffff;

/// Whether the packer skips a file of this size.
pub fn file_too_large(size: u64) -> (r: bool)
    ensures
        r == (size >= FILE_SIZE_LIMIT),
{
    size >= FILE_SIZE_LIMIT
}

/// The walk does not descend into `.` or `..`.
pub fn skip_name(name: &Vec<u8>) -> (r: bool)
    ensures
        r == (name@ == seq![DOT] || name@ == seq![DOT, DOT]),
{
    if name.len() == 1 && name[0] == DOT {
        proof {
            assert(name@ =~= seq![DOT]);
        }
        return true;
    }
    if name.len() == 2 && name[0] == DOT && name[1] == DOT {
        proof {
            assert(name@ =~= seq![DOT, DOT]);
        }
        return true;
    }
    proof {
        if name@ == seq![DOT] {
            assert(name@.len() == 1 && name@[0] == DOT);
        }
        if name@ == seq![DOT, DOT] {
            assert(name@.len() == 2 && name@[0] == DOT && name@[1] == DOT);
        }
    }
    false
}

/// The guest path of a child found under `prefix`: the prefix, one
/// separator, the name.
pub fn join_path(prefix: &Vec<u8>, name: &Vec<u8>) -> (r: Vec<u8>)
    ensures
        r@ == prefix@ + seq![SLASH] + name@,
{
    let mut r = crate::storage::copy_bytes(prefix);
    r.push(SLASH);
    let mut n = crate::storage::copy_bytes(name);
    r.append(&mut n);
    proof {
        assert(r@ =~= prefix@ + seq![SLASH] + name@);
    }
    r
}

/// One step over a buffer that a host `fd_readdir` call filled up to
/// `capacity` bytes.
pub enum DirentStep {
    /// The record at the cursor was truncated: the call must be
    /// re-issued from the cookie reached so far, and when the record
    /// began the buffer (so no smaller buffer could ever hold it), the
    /// buffer must grow first.
    NeedMore { grow: bool },
    /// A complete record: the cookie to continue from, the entry's file
    /// type and name, and the cursor just past the record.
    Entry { d_next: u64, d_type: u8, name: Vec<u8>, next_offset: usize },
}

/// The mathematical view of a walk step.
#[verifier::ext_equal]
pub ghost enum DirentStepView {
    NeedMore { grow: bool },
    Entry { d_next: u64, d_type: u8, name: Seq<u8>, next_offset: int },
}

impl View for DirentStep {
    type V = DirentStepView;

    open spec fn view(&self) -> DirentStepView {
        match self {
            DirentStep::NeedMore { grow } => DirentStepView::NeedMore { grow: *grow },
            DirentStep::Entry { d_next, d_type, name, next_offset } => DirentStepView::Entry {
                d_next: *d_next,
                d_type: *d_type,
                name: name@,
                next_offset: *next_offset as int,
            },
        }
    }
}

/// What the step at `offset` finds: the header is 24 bytes little-endian
/// (next cookie, inode, name length, type, padding), followed by the
/// name. Fewer than 24 bytes left means the header itself was cut off;
/// a name reaching past `capacity` means the name was cut off, and only
/// a record that began the buffer calls for a larger buffer.
pub open spec fn next_dirent_spec(buf: Seq<u8>, capacity: int, offset: int) -> DirentStepView {
    if capacity - offset < DIRENT_HEADER_SIZE {
        DirentStepView::NeedMore { grow: false }
    } else {
        let d_next = spec_u64_from_le_bytes(buf.subrange(offset, offset + 8));
        let d_namlen = spec_u32_from_le_bytes(buf.subrange(offset + 16, offset + 20));
        let d_type = buf[offset + 20];
        if capacity - offset - DIRENT_HEADER_SIZE < d_namlen {
            DirentStepView::NeedMore { grow: offset == 0 }
        } else {
            DirentStepView::Entry {
                d_next,
                d_type,
                name: buf.subrange(
                    offset + DIRENT_HEADER_SIZE,
                    offset + DIRENT_HEADER_SIZE + d_namlen,
                ),
                next_offset: offset + DIRENT_HEADER_SIZE + d_namlen,
            }
        }
    }
}

/// Decode the record at `offset` in a buffer holding `capacity` valid
/// bytes.
pub fn next_dirent(buf: &Vec<u8>, capacity: usize, offset: usize) -> (r: DirentStep)
    requires
        offset <= capacity,
        capacity <= buf@.len(),
    ensures
        r@ == next_dirent_spec(buf@, capacity as int, offset as int),
{
    if capacity - offset < DIRENT_HEADER_SIZE {
        return DirentStep::NeedMore { grow: false };
    }
    let next_bytes = sub_bytes(buf, offset, 8);
    let d_next = u64_from_le_bytes(next_bytes.as_slice());
    let namlen_bytes = sub_bytes(buf, offset + 16, 4);
    let d_namlen = u32_from_le_bytes(namlen_bytes.as_slice());
    let d_type = buf[offset + 20];
    if capacity - offset - DIRENT_HEADER_SIZE < (d_namlen as usize) {
        return DirentStep::NeedMore { grow: offset == 0 };
    }
    let name = sub_bytes(buf, offset + DIRENT_HEADER_SIZE, d_namlen as usize);
    let next_offset = offset + DIRENT_HEADER_SIZE + (d_namlen as usize);
    DirentStep::Entry { d_next, d_type, name, next_offset }
}

/// What the packer records for one real host preopen while it scans
/// descriptors 3, 4, ... for directory preopens: the host descriptor and
/// the root it was given in the embedded tree.
#[derive(Clone, Copy, Debug, PartialEq, Eq, Structural)]
pub struct Prestat {
    pub real_fd: u32,
    pub node_id: crate::storage::NodeId,
    pub link_id: crate::storage::LinkId,
}

/// A record the walk parses round-trips with the record the virtual
/// side writes: decoding a buffer that begins with an encoded record
/// yields that record's fields and name, and the cursor lands just past
/// it.
pub proof fn lemma_dirent_roundtrip(
    d_next: u64,
    d_ino: u64,
    d_type: u8,
    name: Seq<u8>,
    rest: Seq<u8>,
)
    requires
        name.len() <= u32::MAX,
    ensures
        ({
            let buf = crate::readdir::dirent_record(d_next, d_ino, name.len() as u32, d_type)
                + name + rest;
            next_dirent_spec(buf, buf.len() as int, 0) == DirentStepView::Entry {
                d_next,
                d_type,
                name,
                next_offset: DIRENT_HEADER_SIZE + name.len() as int,
            }
        }),
{
    vstd::bytes::lemma_auto_spec_u64_to_from_le_bytes();
    vstd::bytes::lemma_auto_spec_u32_to_from_le_bytes();
    let header = crate::readdir::dirent_record(d_next, d_ino, name.len() as u32, d_type);
    let buf = header + name + rest;
    assert(buf.subrange(0, 8) =~= vstd::bytes::spec_u64_to_le_bytes(d_next));
    assert(buf.subrange(16, 20) =~= vstd::bytes::spec_u32_to_le_bytes(name.len() as u32));
    assert(buf[20] == d_type);
    assert(buf.subrange(
        DIRENT_HEADER_SIZE as int,
        DIRENT_HEADER_SIZE + name.len() as int,
    ) =~= name);
}

} // verus!
