//! The command-line surface: the command data, the `HOST::GUEST` /
//! `GUEST::HOST` mapping parser, and the reserved module-linking entry.
//! Reading the wasm module, driving the external snapshotter and writing
//! the output are plain glue around these.

use vstd::prelude::*;

verus! {

/// The byte of `:`.
pub const COLON: u8 = 58;

/// The commands the tool accepts: the hidden, reserved module-linking
/// command, and `pack`, which packages host directories into a wasm
/// module at guest mount points. Paths are carried as raw bytes.
pub enum App {
    LinkModule { input: Vec<u8>, output: Vec<u8> },
    Pack {
        input: Vec<u8>,
        /// Deprecated `GUEST_DIR::HOST_DIR` mappings.
        map_dirs: Vec<(Vec<u8>, Vec<u8>)>,
        /// `HOST_DIR::GUEST_DIR` mappings.
        dirs: Vec<(Vec<u8>, Vec<u8>)>,
        output: Vec<u8>,
    },
}

/// The position of the leftmost `::` at or after `j`, or -1 if there is
/// none.
pub open spec fn find_dsep_from(s: Seq<u8>, j: int) -> int
    decreases s.len() - j,
    when 0 <= j
{
    if j + 2 > s.len() {
        -1
    } else if s[j] == COLON && s[j + 1] == COLON {
        j
    } else {
        find_dsep_from(s, j + 1)
    }
}

/// How a `A::B` mapping argument parses: it must contain exactly one
/// double colon (the split is non-overlapping and leftmost-first), and
/// the two sides around it are the parts.
pub open spec fn parse_pair_spec(s: Seq<u8>) -> Option<(Seq<u8>, Seq<u8>)> {
    let i = find_dsep_from(s, 0);
    if i < 0 {
        None
    } else {
        let a = s.take(i);
        let b = s.skip(i + 2);
        if find_dsep_from(b, 0) >= 0 {
            None
        } else {
            Some((a, b))
        }
    }
}

/// The leftmost `::` in the buffer, if any.
fn find_dsep(s: &Vec<u8>) -> (r: Option<usize>)
    ensures
        match r {
            Some(i) => i == find_dsep_from(s@, 0) && i + 2 <= s@.len(),
            None => find_dsep_from(s@, 0) == -1,
        },
{
    if s.len() < 2 {
        return None;
    }
    let mut j: usize = 0;
    while j <= s.len() - 2
        invariant
            s@.len() >= 2,
            j <= s@.len(),
            find_dsep_from(s@, 0) == find_dsep_from(s@, j as int),
        decreases s@.len() - j,
    {
        if s[j] == COLON && s[j + 1] == COLON {
            return Some(j);
        }
        j += 1;
    }
    None
}

/// Split a `A::B` argument into its two parts; there must be exactly one
/// double colon.
fn parse_pair(s: &Vec<u8>) -> (r: Result<(Vec<u8>, Vec<u8>), &'static str>)
    ensures
        match parse_pair_spec(s@) {
            Some(pair) => r matches Ok(p) && p.0@ == pair.0 && p.1@ == pair.1,
            None => r matches Err(_),
        },
{
    let i = match find_dsep(s) {
        Some(i) => i,
        None => {
            return Err("must contain exactly one double colon ('::')");
        },
    };
    let n = s.len();
    let a = crate::storage::sub_bytes(s, 0, i);
    let b = crate::storage::sub_bytes(s, i + 2, n - i - 2);
    proof {
        assert(a@ =~= s@.take(i as int));
        assert(b@ =~= s@.skip(i + 2));
    }
    match find_dsep(&b) {
        Some(_) => Err("must contain exactly one double colon ('::')"),
        None => Ok((a, b)),
    }
}

/// Parse a deprecated `GUEST_DIR::HOST_DIR` mapping: the guest mount
/// point, then the host directory.
pub fn parse_map_dirs(s: &Vec<u8>) -> (r: Result<(Vec<u8>, Vec<u8>), &'static str>)
    ensures
        match parse_pair_spec(s@) {
            Some(pair) => r matches Ok(p) && p.0@ == pair.0 && p.1@ == pair.1,
            None => r matches Err(_),
        },
{
    parse_pair(s)
}

/// Parse a `HOST_DIR::GUEST_DIR` mapping: the host directory, then the
/// guest mount point.
pub fn parse_dirs(s: &Vec<u8>) -> (r: Result<(Vec<u8>, Vec<u8>), &'static str>)
    ensures
        match parse_pair_spec(s@) {
            Some(pair) => r matches Ok(p) && p.0@ == pair.0 && p.1@ == pair.1,
            None => r matches Err(_),
        },
{
    parse_pair(s)
}

/// The mappings the packer works from: the deprecated guest-first pairs,
/// followed by the host-first pairs with their sides swapped into
/// guest-first order.
pub fn merge_map_dirs(map_dirs: Vec<(Vec<u8>, Vec<u8>)>, dirs: Vec<(Vec<u8>, Vec<u8>)>) -> (r: Vec<
    (Vec<u8>, Vec<u8>),
>)
    ensures
        r@.len() == map_dirs@.len() + dirs@.len(),
        forall|i: int| 0 <= i < map_dirs@.len() ==> r@[i] == map_dirs@[i],
        forall|i: int|
            0 <= i < dirs@.len() ==> #[trigger] r@[map_dirs@.len() + i] == (
                dirs@[i].1,
                dirs@[i].0,
            ),
{
    let ghost map_view = map_dirs@;
    let ghost dirs_view = dirs@;
    let mut r = map_dirs;
    let mut rest = dirs;
    while rest.len() > 0
        invariant
            rest@.len() <= dirs_view.len(),
            rest@ == dirs_view.skip(dirs_view.len() - rest@.len()),
            r@.len() == map_view.len() + dirs_view.len() - rest@.len(),
            forall|i: int| 0 <= i < map_view.len() ==> r@[i] == map_view[i],
            forall|i: int|
                0 <= i < dirs_view.len() - rest@.len() ==> #[trigger] r@[map_view.len() + i] == (
                    dirs_view[i].1,
                    dirs_view[i].0,
                ),
        decreases rest@.len(),
    {
        let ghost consumed = dirs_view.len() - rest@.len();
        proof {
            assert(rest@[0] == dirs_view[consumed]);
        }
        let pair = rest.remove(0);
        r.push((pair.1, pair.0));
        proof {
            assert(rest@ =~= dirs_view.skip(dirs_view.len() - rest@.len()));
        }
    }
    r
}

/// The reserved module-linking command. It is not implemented: the
/// current WASI interface requires the callee to reach the caller's
/// linear memory, which this composition cannot express, so the command
/// always fails with a textual error (a non-zero exit).
pub fn link(main_bytes: &[u8]) -> (r: Result<(), &'static str>)
    ensures
        r is Err,
{
    let _ = main_bytes.len();
    Err("module linking requires interface-types support of WASI and is not available")
}

} // verus!
