//! The directory-entry record format and the readdir loop at the spec
//! level. A record is a fixed 24-byte little-endian header (next cookie,
//! inode number, name length, file type and three bytes of padding)
//! followed by the raw name bytes. The truncation rule: when the header
//! or the name does not fit in the remaining buffer, as many bytes as do
//! fit are still copied, and the *full buffer length* is reported as
//! `bufused`, signalling to the caller that more data remains.

use vstd::prelude::*;
use vstd::bytes::lemma_auto_spec_u32_to_from_le_bytes;
use vstd::bytes::lemma_auto_spec_u64_to_from_le_bytes;
use vstd::bytes::spec_u32_to_le_bytes;
use vstd::bytes::spec_u64_to_le_bytes;
use vstd::bytes::u32_to_le_bytes;
use vstd::bytes::u64_to_le_bytes;

use crate::errno::DIRENT_HEADER_SIZE;
use crate::errno::FILETYPE_DIRECTORY;
use crate::errno::FILETYPE_REGULAR_FILE;
use crate::storage::EntryView;
use crate::storage::StorageView;

verus! {

/// The 24-byte fixed header of one directory-entry record: d_next,
/// d_ino, d_namlen, d_type and three bytes of padding, all little-endian.
pub open spec fn dirent_record(d_next: u64, d_ino: u64, d_namlen: u32, d_type: u8) -> Seq<u8> {
    spec_u64_to_le_bytes(d_next) + spec_u64_to_le_bytes(d_ino) + spec_u32_to_le_bytes(d_namlen)
        + seq![d_type, 0u8, 0u8, 0u8]
}

pub proof fn lemma_dirent_record_len(d_next: u64, d_ino: u64, d_namlen: u32, d_type: u8)
    ensures
        dirent_record(d_next, d_ino, d_namlen, d_type).len() == DIRENT_HEADER_SIZE,
{
    lemma_auto_spec_u64_to_from_le_bytes();
    lemma_auto_spec_u32_to_from_le_bytes();
}

/// Serialize one record header.
pub fn encode_dirent(d_next: u64, d_ino: u64, d_namlen: u32, d_type: u8) -> (r: Vec<u8>)
    ensures
        r@ == dirent_record(d_next, d_ino, d_namlen, d_type),
        r@.len() == DIRENT_HEADER_SIZE,
{
    let mut r = u64_to_le_bytes(d_next);
    let mut ino = u64_to_le_bytes(d_ino);
    r.append(&mut ino);
    let mut namlen = u32_to_le_bytes(d_namlen);
    r.append(&mut namlen);
    r.push(d_type);
    r.push(0);
    r.push(0);
    r.push(0);
    proof {
        lemma_auto_spec_u64_to_from_le_bytes();
        lemma_auto_spec_u32_to_from_le_bytes();
        assert(r@ =~= dirent_record(d_next, d_ino, d_namlen, d_type));
    }
    r
}

/// The file type a directory entry reports for the inode its link points
/// at.
pub open spec fn entry_filetype(s: StorageView, e: EntryView) -> u8 {
    if s.is_dir(s.link_of(e.link_id).node) {
        FILETYPE_DIRECTORY
    } else {
        FILETYPE_REGULAR_FILE
    }
}

/// The record (header and name) of the entry at absolute position
/// `pos` in its directory: d_next is one past that position, so a caller
/// passing it back as the cookie continues with the following entry.
pub open spec fn entry_record(s: StorageView, e: EntryView, pos: int) -> Seq<u8> {
    dirent_record(
        (pos + 1) as u64,
        s.link_of(e.link_id).node.index as u64,
        e.name.len() as u32,
        entry_filetype(s, e),
    ) + e.name
}

/// The readdir loop over the entries remaining after the cookie: each
/// record is appended in full while it fits; the first entry whose
/// header or name does not fit is copied only as far as the buffer
/// reaches, and the full buffer length is reported. With everything
/// consumed, the actual number of bytes written is reported.
pub open spec fn readdir_loop(
    s: StorageView,
    rem: Seq<EntryView>,
    pos: int,
    buf_len: int,
    acc: Seq<u8>,
) -> (Seq<u8>, int)
    decreases rem.len(),
{
    if rem.len() == 0 {
        (acc, acc.len() as int)
    } else {
        let e = rem[0];
        let header = dirent_record(
            (pos + 1) as u64,
            s.link_of(e.link_id).node.index as u64,
            e.name.len() as u32,
            entry_filetype(s, e),
        );
        if buf_len - acc.len() < DIRENT_HEADER_SIZE {
            (acc + header.take(buf_len - acc.len()), buf_len)
        } else if buf_len - acc.len() - DIRENT_HEADER_SIZE < e.name.len() {
            (acc + header + e.name.take(buf_len - acc.len() - DIRENT_HEADER_SIZE), buf_len)
        } else {
            readdir_loop(s, rem.drop_first(), pos + 1, buf_len, acc + header + e.name)
        }
    }
}

/// What reading the directory `dir` from `cookie` into a buffer of
/// `buf_len` bytes produces: the bytes written and the reported
/// `bufused`. The cookie counts entries, not bytes; entries `.` and `..`
/// are not synthesized.
pub open spec fn readdir_spec(s: StorageView, dir: crate::storage::NodeId, buf_len: int, cookie: u64) -> (
    Seq<u8>,
    int,
) {
    let entries = s.entries_of(dir);
    let skip_n = if cookie <= entries.len() {
        cookie as int
    } else {
        entries.len() as int
    };
    readdir_loop(s, entries.skip(skip_n), skip_n, buf_len, Seq::empty())
}

/// The first record that the readdir loop meets is never split across
/// calls: if the caller's buffer is shorter than that record, the
/// reported `bufused` equals the buffer length (so the caller knows to
/// grow), and a later call with the same cookie meets the same entry
/// again, since the cookie only advances per fully consumed entry.
pub proof fn lemma_readdir_truncation(s: StorageView, dir: crate::storage::NodeId, buf_len: int, cookie: u64)
    requires
        0 <= buf_len,
        cookie < s.entries_of(dir).len(),
        buf_len < DIRENT_HEADER_SIZE + s.entries_of(dir)[cookie as int].name.len(),
    ensures
        readdir_spec(s, dir, buf_len, cookie).1 == buf_len,
        readdir_spec(s, dir, buf_len, cookie).0 == entry_record(
            s,
            s.entries_of(dir)[cookie as int],
            cookie as int,
        ).take(buf_len),
{
    let entries = s.entries_of(dir);
    let rem = entries.skip(cookie as int);
    assert(rem[0] == entries[cookie as int]);
    let e = entries[cookie as int];
    let header = dirent_record(
        (cookie + 1) as u64,
        s.link_of(e.link_id).node.index as u64,
        e.name.len() as u32,
        entry_filetype(s, e),
    );
    lemma_dirent_record_len(
        (cookie + 1) as u64,
        s.link_of(e.link_id).node.index as u64,
        e.name.len() as u32,
        entry_filetype(s, e),
    );
    let record = header + e.name;
    if buf_len < DIRENT_HEADER_SIZE {
        assert(Seq::<u8>::empty() + header.take(buf_len) =~= record.take(buf_len));
    } else {
        assert(Seq::<u8>::empty() + header + e.name.take(buf_len - DIRENT_HEADER_SIZE)
            =~= record.take(buf_len));
    }
}

/// An empty directory yields no bytes at once: `bufused` is zero.
pub proof fn lemma_readdir_empty(s: StorageView, dir: crate::storage::NodeId, buf_len: int, cookie: u64)
    requires
        s.entries_of(dir).len() == 0,
    ensures
        readdir_spec(s, dir, buf_len, cookie) == (Seq::<u8>::empty(), 0int),
{
    let entries = s.entries_of(dir);
    assert(entries.skip(0) =~= entries);
}

} // verus!
