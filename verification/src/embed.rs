//! The embedded file system: a storage arena plus the registry of
//! preopened directories and the table of open virtual descriptors.
//! Virtual descriptors are issued monotonically from 0 and never reused;
//! the first descriptors are exactly the preopens, in registration order.

use vstd::prelude::*;

use crate::errno::ERRNO_BADF;
use crate::errno::ERRNO_NOENT;
use crate::errno::FILETYPE_DIRECTORY;
use crate::errno::FILETYPE_REGULAR_FILE;
use crate::errno::READ_ONLY_RIGHTS;
use crate::storage::DirEntry;
use crate::storage::EntryView;
use crate::storage::Link;
use crate::storage::LinkId;
use crate::storage::LinkedStorage;
use crate::storage::NodeData;
use crate::storage::NodeId;
use crate::storage::NodeView;
use crate::storage::StorageView;
use crate::storage::contains_name;
use crate::storage::entry_lookup;
use crate::storage::resolve_components;
use crate::storage::resolve_spec;
use crate::storage::split_bytes;
use crate::storage::valid_name;
use crate::storage::SLASH;
use crate::storage::DOT;
use crate::IdIssuer;
use crate::Vfd;

verus! {

/// Per-descriptor state: the inode and link it refers to, the byte
/// offset of the cursor, and the descriptor flags. The offset may exceed
/// the file size; reads there return zero bytes.
#[derive(Clone, Copy, Debug, PartialEq, Eq, Structural)]
pub struct FdEntry {
    pub offset: u64,
    pub link_id: LinkId,
    pub node_id: NodeId,
    pub flags: u16,
}

/// One preopened directory: its absolute guest-visible mount path.
pub struct PreopenedDir {
    pub path: Vec<u8>,
}

/// A descriptor's fdstat: file type, flags, and the fixed read-only
/// rights mask.
#[derive(Clone, Copy, Debug, PartialEq, Eq, Structural)]
pub struct Fdstat {
    pub fs_filetype: u8,
    pub fs_flags: u16,
    pub fs_rights_base: u64,
    pub fs_rights_inheriting: u64,
}

/// An inode's filestat: type and size from the inode, ino from its
/// stable identity, everything else zero.
#[derive(Clone, Copy, Debug, PartialEq, Eq, Structural)]
pub struct Filestat {
    pub dev: u64,
    pub ino: u64,
    pub filetype: u8,
    pub nlink: u64,
    pub size: u64,
    pub atim: u64,
    pub mtim: u64,
    pub ctim: u64,
}

/// The mathematical view of the embedded file system.
#[verifier::ext_equal]
pub ghost struct EmbedView {
    pub preopens: Seq<Seq<u8>>,
    pub storage: StorageView,
    pub opens: Seq<Option<FdEntry>>,
}

impl EmbedView {
    /// The storage is well-formed, every live descriptor refers to a
    /// valid inode and link, the preopens are a prefix of the descriptor
    /// space, and the descriptor space fits the descriptor type.
    pub open spec fn wf(self) -> bool {
        &&& self.storage.wf()
        &&& self.preopens.len() <= self.opens.len()
        &&& self.opens.len() <= u32::MAX
        &&& forall|i: int|
            0 <= i < self.opens.len() ==> match #[trigger] self.opens[i] {
                Some(e) => self.storage.valid_node(e.node_id) && self.storage.valid_link(e.link_id),
                None => true,
            }
    }

    /// Whether `vfd` is an open (issued and not closed) descriptor.
    pub open spec fn live(self, vfd: Vfd) -> bool {
        vfd < self.opens.len() && self.opens[vfd as int] is Some
    }

    /// The descriptor state of a live `vfd`.
    pub open spec fn entry(self, vfd: Vfd) -> FdEntry {
        match self.opens[vfd as int] {
            Some(e) => e,
            None => arbitrary(),
        }
    }
}

/// What `get_fd_stat` returns: "bad file descriptor" for anything not
/// live, otherwise the inode's file type, the descriptor's flags, and the
/// fixed read-only rights mask on both base and inheriting rights.
pub open spec fn fdstat_spec(v: EmbedView, vfd: Vfd) -> Result<Fdstat, u16> {
    if !v.live(vfd) {
        Err(ERRNO_BADF)
    } else {
        Ok(
            Fdstat {
                fs_filetype: if v.storage.is_dir(v.entry(vfd).node_id) {
                    FILETYPE_DIRECTORY
                } else {
                    FILETYPE_REGULAR_FILE
                },
                fs_flags: v.entry(vfd).flags,
                fs_rights_base: READ_ONLY_RIGHTS,
                fs_rights_inheriting: READ_ONLY_RIGHTS,
            },
        )
    }
}

/// What `get_filestat_from_node_id` returns: file type and size from the
/// inode, ino from its stable identity, dev/nlink/timestamps zero.
pub open spec fn filestat_spec(s: StorageView, node: NodeId) -> Filestat {
    Filestat {
        dev: 0,
        ino: node.index as u64,
        filetype: if s.is_dir(node) {
            FILETYPE_DIRECTORY
        } else {
            FILETYPE_REGULAR_FILE
        },
        nlink: 0,
        size: if s.is_dir(node) {
            0
        } else {
            s.content_of(node).len() as u64
        },
        atim: 0,
        mtim: 0,
        ctim: 0,
    }
}

/// What `new_dir` does to the storage, at the spec level: the new inode
/// and link are appended and an entry is added at the tail of the parent
/// directory's list.
pub open spec fn new_dir_spec(s: StorageView, parent: (NodeId, LinkId), name: Seq<u8>) -> (
    StorageView,
    (NodeId, LinkId),
) {
    let child = (
        NodeId { index: s.nodes.len() as usize },
        LinkId { index: s.links.len() as usize },
    );
    (
        StorageView {
            nodes: s.nodes.update(
                parent.0.index as int,
                NodeView::Dir {
                    entries: s.entries_of(parent.0).push(EntryView { name, link_id: child.1 }),
                },
            ).push(NodeView::Dir { entries: Seq::empty() }),
            links: s.links.push(Link { parent: Some(parent.1), node: child.0 }),
        },
        child,
    )
}

/// What `new_file` does to the storage, at the spec level.
pub open spec fn new_file_spec(
    s: StorageView,
    parent: (NodeId, LinkId),
    name: Seq<u8>,
    content: Seq<u8>,
) -> (StorageView, (NodeId, LinkId)) {
    let child = (
        NodeId { index: s.nodes.len() as usize },
        LinkId { index: s.links.len() as usize },
    );
    (
        StorageView {
            nodes: s.nodes.update(
                parent.0.index as int,
                NodeView::Dir {
                    entries: s.entries_of(parent.0).push(EntryView { name, link_id: child.1 }),
                },
            ).push(NodeView::File { content }),
            links: s.links.push(Link { parent: Some(parent.1), node: child.0 }),
        },
        child,
    )
}

/// The walk `create_file` makes over the intermediate path components:
/// `.` is skipped, an existing name is entered, a missing name is
/// silently created as a new directory, and a file in an intermediate
/// position fails with "bad file descriptor". The storage reached so far
/// is returned even on failure: directories created before the failure
/// remain.
pub open spec fn create_walk(
    s: StorageView,
    cursor: (NodeId, LinkId),
    comps: Seq<Seq<u8>>,
) -> (StorageView, Result<(NodeId, LinkId), u16>)
    decreases comps.len(),
{
    if comps.len() == 0 {
        (s, Ok(cursor))
    } else {
        let c = comps[0];
        let rest = comps.drop_first();
        if c == seq![DOT] {
            create_walk(s, cursor, rest)
        } else if !s.is_dir(cursor.0) {
            (s, Err(ERRNO_BADF))
        } else {
            match entry_lookup(s.entries_of(cursor.0), c) {
                Some(l) => create_walk(s, (s.link_of(l).node, l), rest),
                None => {
                    let (s2, child) = new_dir_spec(s, cursor, c);
                    create_walk(s2, child, rest)
                },
            }
        }
    }
}

/// The walk only grows the storage, keeps it well-formed, and a
/// successful walk lands on a valid cursor. The bound says the walk has
/// room to allocate in the index type: it adds at most one inode and one
/// link per component, and every storage reached from executable code
/// satisfies it with room to spare.
pub proof fn lemma_create_walk_preserves(
    s: StorageView,
    cursor: (NodeId, LinkId),
    comps: Seq<Seq<u8>>,
)
    requires
        s.wf(),
        s.valid_node(cursor.0),
        s.valid_link(cursor.1),
        s.nodes.len() + comps.len() <= usize::MAX,
        s.links.len() + comps.len() <= usize::MAX,
    ensures
        ({
            let (s2, walked) = create_walk(s, cursor, comps);
            &&& s2.extends(s)
            &&& s2.wf()
            &&& s2.nodes.len() <= s.nodes.len() + comps.len()
            &&& s2.links.len() <= s.links.len() + comps.len()
            &&& (walked matches Ok(end) ==> s2.valid_node(end.0) && s2.valid_link(end.1))
        }),
    decreases comps.len(),
{
    crate::storage::lemma_extends_refl(s);
    if comps.len() > 0 {
        let c = comps[0];
        let rest = comps.drop_first();
        if c == seq![DOT] {
            lemma_create_walk_preserves(s, cursor, rest);
        } else if !s.is_dir(cursor.0) {
        } else {
            match entry_lookup(s.entries_of(cursor.0), c) {
                Some(l) => {
                    crate::storage::lemma_entry_lookup_found(s.entries_of(cursor.0), c);
                    let k = choose|k: int|
                        0 <= k < s.entries_of(cursor.0).len() && (#[trigger] s.entries_of(
                            cursor.0,
                        )[k]).link_id == l;
                    assert(s.valid_link(l));
                    let next = (s.link_of(l).node, l);
                    assert(s.valid_node(next.0));
                    lemma_create_walk_preserves(s, next, rest);
                },
                None => {
                    let (s2, child) = new_dir_spec(s, cursor, c);
                    assert(s.nodes.len() < usize::MAX && s.links.len() < usize::MAX);
                    assert(s2.nodes =~= s.nodes.push(NodeView::Dir { entries: Seq::empty() }).update(
                        cursor.0.index as int,
                        NodeView::Dir {
                            entries: s.entries_of(cursor.0).push(
                                EntryView { name: c, link_id: child.1 },
                            ),
                        },
                    ));
                    crate::storage::lemma_wf_after_child(
                        s,
                        s2,
                        cursor,
                        NodeView::Dir { entries: Seq::empty() },
                        child.0,
                        child.1,
                        c,
                    );
                    lemma_create_walk_preserves(s2, child, rest);
                    crate::storage::lemma_extends_trans(
                        s,
                        s2,
                        create_walk(s2, child, rest).0,
                    );
                },
            }
        }
    }
}

/// After a successful walk, resolving the same components in any storage
/// that extends the walk's result lands on exactly the cursor the walk
/// reached: existing names are found where the walk entered them (a
/// prefix scan is stable under appends), and created names are found at
/// the entries the walk appended.
pub proof fn lemma_resolve_after_walk(
    s: StorageView,
    cursor: (NodeId, LinkId),
    comps: Seq<Seq<u8>>,
    s_final: StorageView,
)
    requires
        s.wf(),
        s.valid_node(cursor.0),
        s.valid_link(cursor.1),
        forall|i: int|
            0 <= i < comps.len() ==> comps[i] == seq![DOT] || valid_name(#[trigger] comps[i]),
        create_walk(s, cursor, comps).1 is Ok,
        s_final.extends(create_walk(s, cursor, comps).0),
        s.nodes.len() + comps.len() <= usize::MAX,
        s.links.len() + comps.len() <= usize::MAX,
    ensures
        resolve_components(s_final, cursor.0, cursor.1, comps) == create_walk(s, cursor, comps).1,
    decreases comps.len(),
{
    if comps.len() > 0 {
        let c = comps[0];
        let rest = comps.drop_first();
        assert(forall|i: int|
            0 <= i < rest.len() ==> rest[i] == seq![DOT] || valid_name(#[trigger] rest[i]))
            by {
            assert(forall|i: int| 0 <= i < rest.len() ==> rest[i] == comps[i + 1]);
        }
        if c == seq![DOT] {
            assert(c.len() == 1);
            lemma_resolve_after_walk(s, cursor, rest, s_final);
        } else {
            assert(valid_name(c));
            assert(c != seq![DOT] && c != seq![DOT, DOT] && c.len() > 0);
            assert(s.is_dir(cursor.0));
            lemma_create_walk_preserves(s, cursor, comps);
            crate::storage::lemma_extends_trans(s, create_walk(s, cursor, comps).0, s_final);
            assert(s_final.is_dir(cursor.0) && s_final.entries_of(cursor.0).len() >= s.entries_of(
                cursor.0,
            ).len()) by {
                assert(s.nodes[cursor.0.index as int] is Dir);
            }
            let e_s = s.entries_of(cursor.0);
            let e_f = s_final.entries_of(cursor.0);
            assert(e_s.is_prefix_of(e_f));
            match entry_lookup(e_s, c) {
                Some(l) => {
                    crate::storage::lemma_entry_lookup_prefix(e_s, e_f, c);
                    assert(entry_lookup(e_f, c) == Some(l));
                    crate::storage::lemma_entry_lookup_found(e_s, c);
                    assert(s.valid_link(l));
                    assert(s_final.link_of(l) == s.link_of(l));
                    let next = (s.link_of(l).node, l);
                    assert(s.valid_node(next.0));
                    lemma_resolve_after_walk(s, next, rest, s_final);
                },
                None => {
                    let (s2, child) = new_dir_spec(s, cursor, c);
                    assert(s.nodes.len() < usize::MAX && s.links.len() < usize::MAX);
                    assert(s2.nodes =~= s.nodes.push(NodeView::Dir { entries: Seq::empty() }).update(
                        cursor.0.index as int,
                        NodeView::Dir {
                            entries: s.entries_of(cursor.0).push(
                                EntryView { name: c, link_id: child.1 },
                            ),
                        },
                    ));
                    crate::storage::lemma_wf_after_child(
                        s,
                        s2,
                        cursor,
                        NodeView::Dir { entries: Seq::empty() },
                        child.0,
                        child.1,
                        c,
                    );
                    lemma_create_walk_preserves(s2, child, rest);
                    crate::storage::lemma_extends_trans(s2, create_walk(s2, child, rest).0, s_final);
                    crate::storage::lemma_entry_lookup_none(e_s, c);
                    assert(s2.entries_of(cursor.0) == e_s.push(EntryView { name: c, link_id: child.1 }));
                    assert(s2.entries_of(cursor.0).is_prefix_of(e_f)) by {
                        assert(s2.nodes[cursor.0.index as int] is Dir);
                    }
                    crate::storage::lemma_entry_lookup_fresh_then_prefix(e_s, e_f, c, child.1);
                    assert(entry_lookup(e_f, c) == Some(child.1));
                    assert(s2.valid_link(child.1));
                    assert(s_final.link_of(child.1) == s2.link_of(child.1));
                    assert(s_final.link_of(child.1).node == child.0);
                    lemma_resolve_after_walk(s2, child, rest, s_final);
                },
            }
        }
    }
}

/// A relative path the packer hands to `create_file`: every component is
/// `.` or a valid name, and the final component is a valid name.
pub open spec fn valid_relpath(relpath: Seq<u8>) -> bool {
    let comps = split_bytes(strip_leading_slash(relpath));
    &&& forall|i: int|
        0 <= i < comps.len() ==> comps[i] == seq![DOT] || valid_name(#[trigger] comps[i])
    &&& valid_name(comps.last())
}

/// The packing law: a file `create_file` placed successfully is found
/// again by resolving the same relative path against the same preopen
/// root cursor, and the inode it lands on holds exactly the packed
/// bytes. The cursor must be a preopen root (so that a leading `/`
/// resets resolution back to it), the path's components must be `.` or
/// valid names, the final name must not already stand in the directory
/// the walk reaches (the packer constructs each name once), and the
/// arenas must have room in the index type for one inode and link per
/// component.
pub proof fn lemma_create_file_then_resolve(
    s: StorageView,
    dir: (NodeId, LinkId),
    relpath: Seq<u8>,
    content: Seq<u8>,
)
    requires
        s.wf(),
        s.valid_node(dir.0),
        s.valid_link(dir.1),
        s.is_dir(dir.0),
        s.link_of(dir.1).parent is None,
        s.link_of(dir.1).node == dir.0,
        valid_relpath(relpath),
        s.nodes.len() + split_bytes(strip_leading_slash(relpath)).len() <= usize::MAX,
        s.links.len() + split_bytes(strip_leading_slash(relpath)).len() <= usize::MAX,
        ({
            let comps = split_bytes(strip_leading_slash(relpath));
            let (s_mid, walked) = create_walk(s, dir, comps.drop_last());
            &&& walked matches Ok(cursor)
            &&& s_mid.is_dir(cursor.0)
            &&& !contains_name(s_mid.entries_of(cursor.0), comps.last())
        }),
    ensures
        create_file_spec(s, dir, relpath, content).1 == Ok::<(), u16>(()),
        ({
            let s2 = create_file_spec(s, dir, relpath, content).0;
            let comps = split_bytes(strip_leading_slash(relpath));
            let (s_mid, walked) = create_walk(s, dir, comps.drop_last());
            let child = new_file_spec(s_mid, walked->Ok_0, comps.last(), content).1;
            &&& resolve_spec(s2, dir.0, dir.1, relpath) == Ok::<(NodeId, LinkId), u16>(child)
            &&& s2.content_of(child.0) == content
        }),
{
    let stripped = strip_leading_slash(relpath);
    let comps = split_bytes(stripped);
    crate::storage::lemma_split_bytes_len(stripped);
    let inter = comps.drop_last();
    let last = comps.last();
    let (s_mid, walked) = create_walk(s, dir, inter);
    let cursor = walked->Ok_0;
    let s2 = create_file_spec(s, dir, relpath, content).0;
    assert(s2 == new_file_spec(s_mid, cursor, last, content).0);
    let child = new_file_spec(s_mid, cursor, last, content).1;

    // the walk leaves a well-formed, grown storage and a valid cursor
    lemma_create_walk_preserves(s, dir, inter);
    assert(s_mid.wf() && s_mid.extends(s));
    assert(s_mid.valid_node(cursor.0) && s_mid.valid_link(cursor.1));
    assert(s.nodes.len() <= s_mid.nodes.len() && s.links.len() <= s_mid.links.len());
    assert(s_mid.nodes.len() + 1 <= usize::MAX && s_mid.links.len() + 1 <= usize::MAX) by {
        assert(inter.len() + 1 == comps.len());
    }

    // placing the file is one more append; it keeps the storage
    // well-formed and grows it
    assert(s2.nodes =~= s_mid.nodes.push(NodeView::File { content }).update(
        cursor.0.index as int,
        NodeView::Dir {
            entries: s_mid.entries_of(cursor.0).push(EntryView { name: last, link_id: child.1 }),
        },
    ));
    crate::storage::lemma_wf_after_child(
        s_mid,
        s2,
        cursor,
        NodeView::File { content },
        child.0,
        child.1,
        last,
    );
    assert(s2.wf() && s2.extends(s_mid));

    // the resolution starts from the same cursor: a leading slash walks
    // back to the preopen root, which is exactly the base cursor
    let resolve_comps = if relpath.len() > 0 && relpath[0] == SLASH {
        split_bytes(relpath)
    } else {
        comps
    };
    if relpath.len() > 0 && relpath[0] == SLASH {
        assert(s2.valid_link(dir.1) && s2.link_of(dir.1) == s.link_of(dir.1)) by {
            crate::storage::lemma_extends_trans(s, s_mid, s2);
        }
        assert(crate::storage::root_link_of(s2, dir.1) == dir.1);
        assert(Seq::<u8>::empty() + seq![SLASH] + relpath.drop_first() =~= relpath);
        crate::storage::lemma_split_concat(Seq::<u8>::empty(), relpath.drop_first());
        assert(stripped == relpath.drop_first());
        assert(split_bytes(relpath) == seq![Seq::<u8>::empty()] + comps);
        assert(split_bytes(relpath)[0].len() == 0);
        assert(split_bytes(relpath).drop_first() =~= comps);
        assert(resolve_components(s2, dir.0, dir.1, split_bytes(relpath)) == resolve_components(
            s2,
            dir.0,
            dir.1,
            comps,
        ));
    } else {
        assert(stripped == relpath);
    }

    // the components decompose into the walked prefix and the final name
    assert(comps =~= inter + seq![last]);
    crate::storage::lemma_resolve_components_concat(s2, dir.0, dir.1, inter, seq![last]);
    assert(forall|i: int|
        0 <= i < inter.len() ==> inter[i] == seq![DOT] || valid_name(#[trigger] inter[i])) by {
        assert(forall|i: int| 0 <= i < inter.len() ==> inter[i] == comps[i]);
    }
    lemma_resolve_after_walk(s, dir, inter, s2);
    assert(resolve_components(s2, dir.0, dir.1, inter) == Ok::<(NodeId, LinkId), u16>(cursor));

    // the final name is fresh where the walk landed, so resolution finds
    // exactly the appended file entry
    crate::storage::lemma_fresh_child_resolves(
        s_mid,
        s2,
        cursor,
        last,
        child,
        NodeView::File { content },
    );
    assert(resolve_spec(s2, cursor.0, cursor.1, last) == Ok::<(NodeId, LinkId), u16>(child));
    assert(last[0] != SLASH);
    crate::storage::lemma_split_single(last);
    assert(resolve_components(s2, cursor.0, cursor.1, seq![last]) == Ok::<
        (NodeId, LinkId),
        u16,
    >(child));
    assert(resolve_components(s2, dir.0, dir.1, comps) == Ok::<(NodeId, LinkId), u16>(child));
    assert(s2.content_of(child.0) == content);
}

/// At most one leading `/` is stripped from the relative path.
pub open spec fn strip_leading_slash(p: Seq<u8>) -> Seq<u8> {
    if p.len() > 0 && p[0] == SLASH {
        p.drop_first()
    } else {
        p
    }
}

/// What `create_file` does: the storage it leaves behind and the result
/// it returns. The base must be a directory; the intermediate components
/// are walked (and missing ones created) by `create_walk`; the file is
/// placed at the final name under the reached cursor.
pub open spec fn create_file_spec(
    s: StorageView,
    dir: (NodeId, LinkId),
    relpath: Seq<u8>,
    content: Seq<u8>,
) -> (StorageView, Result<(), u16>) {
    if !s.is_dir(dir.0) {
        (s, Err(ERRNO_BADF))
    } else {
        let comps = split_bytes(strip_leading_slash(relpath));
        let (s2, walked) = create_walk(s, dir, comps.drop_last());
        match walked {
            Err(e) => (s2, Err(e)),
            Ok(cursor) => if !s2.is_dir(cursor.0) {
                (s2, Err(ERRNO_BADF))
            } else {
                (new_file_spec(s2, cursor, comps.last(), content).0, Ok(()))
            },
        }
    }
}

/// What `create_dir` does: the storage it leaves behind and the result
/// it returns. The base must be a directory; every component of the path
/// is walked, and each missing one is created.
pub open spec fn create_dir_spec(s: StorageView, dir: (NodeId, LinkId), relpath: Seq<u8>) -> (
    StorageView,
    Result<(), u16>,
) {
    if !s.is_dir(dir.0) {
        (s, Err(ERRNO_BADF))
    } else {
        let comps = split_bytes(strip_leading_slash(relpath));
        let (s2, walked) = create_walk(s, dir, comps);
        match walked {
            Err(e) => (s2, Err(e)),
            Ok(_) => (s2, Ok(())),
        }
    }
}

/// An owned copy of the path with at most one leading `/` removed.
fn strip_slash(relpath: &Vec<u8>) -> (r: Vec<u8>)
    ensures
        r@ == strip_leading_slash(relpath@),
{
    let start: usize = if relpath.len() > 0 && relpath[0] == SLASH {
        1
    } else {
        0
    };
    let mut stripped: Vec<u8> = Vec::new();
    let mut i: usize = start;
    while i < relpath.len()
        invariant
            start <= i <= relpath.len(),
            stripped@ == relpath@.subrange(start as int, i as int),
        decreases relpath.len() - i,
    {
        stripped.push(relpath[i]);
        proof {
            assert(stripped@ =~= relpath@.subrange(start as int, i + 1));
        }
        i += 1;
    }
    proof {
        assert(stripped@ =~= strip_leading_slash(relpath@));
    }
    stripped
}

/// The window a read delivers: the cursor clamped to the content length,
/// and the number of bytes handed out — the full request while content
/// remains, short only when the content is exhausted.
pub open spec fn read_window(content: Seq<u8>, off: u64, max: usize) -> (int, int) {
    let start = if off <= content.len() {
        off as int
    } else {
        content.len() as int
    };
    let n = if max <= content.len() - start {
        max as int
    } else {
        content.len() - start
    };
    (start, n)
}

/// Append the first `k` bytes of `src` to `out`.
fn push_prefix(out: &mut Vec<u8>, src: &Vec<u8>, k: usize)
    requires
        k <= src@.len(),
    ensures
        final(out)@ == old(out)@ + src@.take(k as int),
{
    let mut j: usize = 0;
    while j < k
        invariant
            j <= k <= src@.len(),
            out@ == old(out)@ + src@.take(j as int),
        decreases k - j,
    {
        out.push(src[j]);
        proof {
            assert(out@ =~= old(out)@ + src@.take(j + 1));
        }
        j += 1;
    }
    proof {
        assert(out@ =~= old(out)@ + src@.take(k as int));
    }
}

/// For every descriptor issued by `preopen_dir`, the path registry at
/// that descriptor holds the exact input path, which is what
/// `get_preopened_dir_path` returns for it. `pre` and `post` are the
/// views before and after the registration, related as `preopen_dir`
/// ensures.
pub proof fn lemma_preopen_path_roundtrip(
    pre: EmbedView,
    post: EmbedView,
    path: Seq<u8>,
    vfd: Vfd,
)
    requires
        pre.preopens.len() == pre.opens.len(),
        vfd == pre.opens.len(),
        post.preopens == pre.preopens.push(path),
    ensures
        vfd < post.preopens.len(),
        post.preopens[vfd as int] == path,
{
}

/// Closing a virtual descriptor then referencing it yields "bad file
/// descriptor": its table slot is empty afterwards, so it is no longer
/// live and a stat of it fails with that errno.
pub proof fn lemma_close_then_badf_vfd(pre: EmbedView, post: EmbedView, vfd: Vfd)
    requires
        pre.live(vfd),
        post.opens == pre.opens.update(vfd as int, None::<FdEntry>),
    ensures
        !post.live(vfd),
        fdstat_spec(post, vfd) == Err::<Fdstat, u16>(ERRNO_BADF),
{
}

/// The embedded file system.
pub struct EmbeddedFs {
    preopened_dirs: Vec<PreopenedDir>,
    storage: LinkedStorage,
    opens: Vec<Option<FdEntry>>,
    fd_issuer: IdIssuer,
}

impl View for EmbeddedFs {
    type V = EmbedView;

    closed spec fn view(&self) -> EmbedView {
        EmbedView {
            preopens: self.preopened_dirs@.map_values(|p: PreopenedDir| p.path@),
            storage: self.storage@,
            opens: self.opens@,
        }
    }
}

impl EmbeddedFs {
    /// The descriptor issuer always stands at the end of the descriptor
    /// table: the next virtual descriptor is the table's length.
    pub closed spec fn issuer_at_end(&self) -> bool {
        self.fd_issuer.spec_next() == self.opens@.len()
    }

    /// The view is well-formed and the issuer stands at the end of the
    /// descriptor table.
    pub open spec fn inv(&self) -> bool {
        &&& self@.wf()
        &&& self.issuer_at_end()
    }

    /// An embedded file system over the given storage, with no preopens
    /// and no open descriptors.
    pub fn new(storage: LinkedStorage) -> (r: EmbeddedFs)
        requires
            storage@.wf(),
        ensures
            r.inv(),
            r@.preopens.len() == 0,
            r@.opens.len() == 0,
            r@.storage == storage@,
    {
        EmbeddedFs {
            preopened_dirs: Vec::new(),
            storage,
            opens: Vec::new(),
            fd_issuer: IdIssuer::new(0u32),
        }
    }

    /// Register a new preopened directory: allocate a fresh root in
    /// storage, issue the next virtual descriptor, record the mount path
    /// and open the root at offset 0 with no flags. Preopens must be
    /// installed before any other descriptor is issued: at registration
    /// time every issued descriptor is a preopen.
    pub fn preopen_dir(&mut self, path: Vec<u8>) -> (r: (Vfd, NodeId, LinkId))
        requires
            old(self).inv(),
            old(self)@.opens.len() == old(self)@.preopens.len(),
            old(self)@.opens.len() < u32::MAX,
        ensures
            final(self).inv(),
            r.0 == old(self)@.opens.len(),
            r.1.index == old(self)@.storage.nodes.len(),
            r.2.index == old(self)@.storage.links.len(),
            final(self)@.preopens == old(self)@.preopens.push(path@),
            final(self)@.storage.nodes == old(self)@.storage.nodes.push(
                NodeView::Dir { entries: Seq::empty() },
            ),
            final(self)@.storage.links == old(self)@.storage.links.push(
                Link { parent: None, node: r.1 },
            ),
            final(self)@.opens == old(self)@.opens.push(
                Some(FdEntry { offset: 0, link_id: r.2, node_id: r.1, flags: 0 }),
            ),
            final(self)@.storage.extends(old(self)@.storage),
    {
        let fd = self.fd_issuer.issue();
        self.preopened_dirs.push(PreopenedDir { path });
        let (node_id, link_id) = self.storage.new_root_dir();
        self.opens.push(Some(FdEntry { offset: 0, link_id, node_id, flags: 0 }));
        proof {
            assert(self@.preopens =~~= old(self)@.preopens.push(
                self.preopened_dirs@.last().path@,
            ));
        }
        (fd, node_id, link_id)
    }

    /// The mount path of a preopened directory, or nothing if `vfd` is
    /// not a preopen. By construction the preopens are exactly the first
    /// descriptors.
    pub fn get_preopened_dir_path(&self, vfd: Vfd) -> (r: Option<&Vec<u8>>)
        ensures
            match r {
                Some(p) => vfd < self@.preopens.len() && p@ == self@.preopens[vfd as int],
                None => vfd >= self@.preopens.len(),
            },
    {
        let idx = vfd as usize;
        if idx >= self.preopened_dirs.len() {
            return None;
        }
        Some(&self.preopened_dirs[idx].path)
    }

    /// The inode a link points at.
    pub fn get_node_id_by_link(&self, id: LinkId) -> (r: NodeId)
        requires
            self.inv(),
            self@.storage.valid_link(id),
        ensures
            r == self@.storage.link_of(id).node,
            self@.storage.valid_node(r),
    {
        self.storage.get_link(&id).node
    }

    /// The inode record behind a live descriptor, or "bad file
    /// descriptor".
    pub fn get_node(&self, fd: Vfd) -> (r: Result<&NodeData, u16>)
        requires
            self.inv(),
        ensures
            match r {
                Ok(n) => self@.live(fd) && n@ == self@.storage.nodes[self@.entry(
                    fd,
                ).node_id.index as int],
                Err(e) => !self@.live(fd) && e == ERRNO_BADF,
            },
    {
        let idx = fd as usize;
        if idx >= self.opens.len() {
            return Err(ERRNO_BADF);
        }
        match &self.opens[idx] {
            Some(entry) => Ok(self.storage.get_inode(&entry.node_id)),
            None => Err(ERRNO_BADF),
        }
    }

    /// The descriptor state of a live descriptor, or "bad file
    /// descriptor".
    pub fn get_fd_entry(&self, fd: Vfd) -> (r: Result<FdEntry, u16>)
        ensures
            match r {
                Ok(e) => self@.live(fd) && e == self@.entry(fd),
                Err(e) => !self@.live(fd) && e == ERRNO_BADF,
            },
    {
        let idx = fd as usize;
        if idx >= self.opens.len() {
            return Err(ERRNO_BADF);
        }
        match &self.opens[idx] {
            Some(entry) => Ok(*entry),
            None => Err(ERRNO_BADF),
        }
    }

    /// Move the cursor of a live descriptor.
    pub fn set_fd_offset(&mut self, fd: Vfd, offset: u64)
        requires
            old(self).inv(),
            old(self)@.live(fd),
        ensures
            final(self).inv(),
            final(self)@.opens == old(self)@.opens.update(
                fd as int,
                Some(FdEntry { offset, ..old(self)@.entry(fd) }),
            ),
            final(self)@.preopens == old(self)@.preopens,
            final(self)@.storage == old(self)@.storage,
    {
        let idx = fd as usize;
        match &mut self.opens[idx] {
            Some(entry) => {
                entry.offset = offset;
            },
            None => {},
        }
        proof {
            assert(self@.opens =~~= old(self)@.opens.update(
                fd as int,
                Some(FdEntry { offset, ..old(self)@.entry(fd) }),
            ));
        }
    }

    /// Overwrite the flags of a live descriptor.
    pub fn set_fd_flags(&mut self, fd: Vfd, flags: u16)
        requires
            old(self).inv(),
            old(self)@.live(fd),
        ensures
            final(self).inv(),
            final(self)@.opens == old(self)@.opens.update(
                fd as int,
                Some(FdEntry { flags, ..old(self)@.entry(fd) }),
            ),
            final(self)@.preopens == old(self)@.preopens,
            final(self)@.storage == old(self)@.storage,
    {
        let idx = fd as usize;
        match &mut self.opens[idx] {
            Some(entry) => {
                entry.flags = flags;
            },
            None => {},
        }
        proof {
            assert(self@.opens =~~= old(self)@.opens.update(
                fd as int,
                Some(FdEntry { flags, ..old(self)@.entry(fd) }),
            ));
        }
    }

    /// Close a descriptor: its table slot is emptied and, because the
    /// issuer never moves backwards, the descriptor is never reused.
    pub fn close_file(&mut self, fd: Vfd) -> (r: Result<(), u16>)
        requires
            old(self).inv(),
        ensures
            final(self).inv(),
            final(self)@.preopens == old(self)@.preopens,
            final(self)@.storage == old(self)@.storage,
            final(self)@.opens.len() == old(self)@.opens.len(),
            match r {
                Ok(()) => old(self)@.live(fd) && final(self)@.opens == old(self)@.opens.update(
                    fd as int,
                    None,
                ),
                Err(e) => !old(self)@.live(fd) && e == ERRNO_BADF && final(self)@.opens == old(self)@.opens,
            },
    {
        let idx = fd as usize;
        if idx >= self.opens.len() {
            proof {
                assert(final(self)@.opens =~~= old(self)@.opens);
            }
            return Err(ERRNO_BADF);
        }
        let live = self.opens[idx].is_some();
        if !live {
            proof {
                assert(final(self)@.opens =~~= old(self)@.opens);
            }
            return Err(ERRNO_BADF);
        }
        self.opens[idx] = None;
        Ok(())
    }

    /// Open the file or directory `path` names, resolved against the
    /// directory a live descriptor refers to: a fresh descriptor is
    /// issued at offset 0 with the given flags. Fails with "bad file
    /// descriptor" on a dead base descriptor, and with the resolution
    /// error when the path does not resolve.
    pub fn open_file(&mut self, base: Vfd, path: &Vec<u8>, fdflags: u16) -> (r: Result<Vfd, u16>)
        requires
            old(self).inv(),
            old(self)@.opens.len() < u32::MAX,
        ensures
            final(self).inv(),
            final(self)@.preopens == old(self)@.preopens,
            final(self)@.storage == old(self)@.storage,
            !old(self)@.live(base) ==> r == Err::<Vfd, u16>(ERRNO_BADF) && final(self)@.opens
                == old(self)@.opens,
            old(self)@.live(base) ==> match resolve_spec(
                old(self)@.storage,
                old(self)@.entry(base).node_id,
                old(self)@.entry(base).link_id,
                path@,
            ) {
                Ok((n, l)) => {
                    &&& r == Ok::<Vfd, u16>(old(self)@.opens.len() as Vfd)
                    &&& final(self)@.opens == old(self)@.opens.push(
                        Some(FdEntry { offset: 0, link_id: l, node_id: n, flags: fdflags }),
                    )
                },
                Err(e) => r == Err::<Vfd, u16>(e) && final(self)@.opens == old(self)@.opens,
            },
    {
        let idx = base as usize;
        if idx >= self.opens.len() {
            return Err(ERRNO_BADF);
        }
        let entry = match &self.opens[idx] {
            Some(entry) => *entry,
            None => {
                return Err(ERRNO_BADF);
            },
        };
        let (node_id, link_id) = match self.storage.resolve_node(
            entry.node_id,
            entry.link_id,
            path,
        ) {
            Ok(p) => p,
            Err(e) => {
                return Err(e);
            },
        };
        let new_fd = self.fd_issuer.issue();
        self.opens.push(Some(FdEntry { offset: 0, link_id, node_id, flags: fdflags }));
        Ok(new_fd)
    }

    /// Place a file with the given content at `relpath` under the
    /// directory `(dir_node, dir_link)`, silently creating missing
    /// intermediate directories; used only during packing. A leading `/`
    /// is stripped and `.` components are skipped. Fails with "bad file
    /// descriptor" if the base, or any inode an intermediate component
    /// lands on, is not a directory; directories created before such a
    /// failure remain (the storage only ever grows).
    pub fn create_file(
        &mut self,
        dir_node: NodeId,
        dir_link: LinkId,
        relpath: &Vec<u8>,
        content: Vec<u8>,
    ) -> (r: Result<(), u16>)
        requires
            old(self).inv(),
            old(self)@.storage.valid_node(dir_node),
            old(self)@.storage.valid_link(dir_link),
        ensures
            final(self).inv(),
            final(self)@.preopens == old(self)@.preopens,
            final(self)@.opens == old(self)@.opens,
            final(self)@.storage.extends(old(self)@.storage),
            final(self)@.storage == create_file_spec(
                old(self)@.storage,
                (dir_node, dir_link),
                relpath@,
                content@,
            ).0,
            r == create_file_spec(old(self)@.storage, (dir_node, dir_link), relpath@, content@).1,
    {
        let ghost s0 = old(self)@.storage;
        let base_is_dir = match self.storage.get_inode(&dir_node) {
            NodeData::Dir { .. } => true,
            NodeData::File { .. } => false,
        };
        if !base_is_dir {
            return Err(ERRNO_BADF);
        }
        let stripped = strip_slash(relpath);
        let mut comps = crate::storage::split_path_components(&stripped);
        let ghost all_comps = split_bytes(strip_leading_slash(relpath@));
        let filename = match comps.pop() {
            Some(f) => f,
            None => {
                proof {
                    assert(false);
                }
                return Err(ERRNO_NOENT);
            },
        };
        let ghost inter = all_comps.drop_last();
        proof {
            assert(comps@.map_values(|c: Vec<u8>| c@) =~~= inter);
            assert(filename@ == all_comps.last());
        }
        let (node, link) = match self.walk_create(dir_node, dir_link, &comps) {
            Ok(cursor) => cursor,
            Err(e) => {
                return Err(e);
            },
        };
        let cur_is_dir = match self.storage.get_inode(&node) {
            NodeData::Dir { .. } => true,
            NodeData::File { .. } => false,
        };
        if !cur_is_dir {
            return Err(ERRNO_BADF);
        }
        let ghost prev = self@.storage;
        let ghost filename_view = filename@;
        let ghost content_view = content@;
        self.storage.new_file((node, link), filename, content);
        proof {
            assert(self@.storage =~~= new_file_spec(
                prev,
                (node, link),
                filename_view,
                content_view,
            ).0);
            crate::storage::lemma_extends_trans(s0, prev, self@.storage);
            self.lemma_opens_valid_after_extend(prev);
        }
        Ok(())
    }

    /// Materialize the directory at `relpath` under `(dir_node,
    /// dir_link)`, silently creating every missing component on the way;
    /// used only during packing, so that directories discovered in the
    /// walk exist even when they hold no files. A leading `/` is stripped
    /// and `.` components are skipped; "bad file descriptor" if the base,
    /// or an inode a component lands on, is not a directory.
    pub fn create_dir(&mut self, dir_node: NodeId, dir_link: LinkId, relpath: &Vec<u8>) -> (r:
        Result<(), u16>)
        requires
            old(self).inv(),
            old(self)@.storage.valid_node(dir_node),
            old(self)@.storage.valid_link(dir_link),
        ensures
            final(self).inv(),
            final(self)@.preopens == old(self)@.preopens,
            final(self)@.opens == old(self)@.opens,
            final(self)@.storage.extends(old(self)@.storage),
            final(self)@.storage == create_dir_spec(
                old(self)@.storage,
                (dir_node, dir_link),
                relpath@,
            ).0,
            r == create_dir_spec(old(self)@.storage, (dir_node, dir_link), relpath@).1,
    {
        let base_is_dir = match self.storage.get_inode(&dir_node) {
            NodeData::Dir { .. } => true,
            NodeData::File { .. } => false,
        };
        if !base_is_dir {
            return Err(ERRNO_BADF);
        }
        let stripped = strip_slash(relpath);
        let comps = crate::storage::split_path_components(&stripped);
        match self.walk_create(dir_node, dir_link, &comps) {
            Ok(_) => Ok(()),
            Err(e) => Err(e),
        }
    }

    /// Walk the components from the given cursor, entering existing names
    /// and creating each missing one as a fresh directory, exactly as
    /// `create_walk` describes.
    fn walk_create(&mut self, dir_node: NodeId, dir_link: LinkId, comps: &Vec<Vec<u8>>) -> (r:
        Result<(NodeId, LinkId), u16>)
        requires
            old(self).inv(),
            old(self)@.storage.valid_node(dir_node),
            old(self)@.storage.valid_link(dir_link),
        ensures
            final(self).inv(),
            final(self)@.preopens == old(self)@.preopens,
            final(self)@.opens == old(self)@.opens,
            final(self)@.storage.extends(old(self)@.storage),
            ({
                let (s2, walked) = create_walk(
                    old(self)@.storage,
                    (dir_node, dir_link),
                    comps@.map_values(|c: Vec<u8>| c@),
                );
                &&& final(self)@.storage == s2
                &&& r == walked
                &&& r matches Ok(cursor) ==> final(self)@.storage.valid_node(cursor.0) && final(self)@.storage.valid_link(cursor.1)
            }),
    {
        let ghost s0 = old(self)@.storage;
        let ghost inter = comps@.map_values(|c: Vec<u8>| c@);
        let mut node = dir_node;
        let mut link = dir_link;
        let ghost walk_goal = create_walk(s0, (dir_node, dir_link), inter);
        proof {
            assert(inter.skip(0) =~= inter);
        }
        let mut j: usize = 0;
        while j < comps.len()
            invariant
                j <= comps.len(),
                self.inv(),
                self@.preopens == old(self)@.preopens,
                self@.opens == old(self)@.opens,
                self@.storage.valid_node(node),
                self@.storage.valid_link(link),
                self@.storage.extends(s0),
                s0 == old(self)@.storage,
                inter == comps@.map_values(|c: Vec<u8>| c@),
                walk_goal == create_walk(s0, (dir_node, dir_link), inter),
                create_walk(self@.storage, (node, link), inter.skip(j as int)) == walk_goal,
            decreases comps.len() - j,
        {
            let ghost rest = inter.skip(j as int);
            proof {
                assert(rest[0] == inter[j as int]);
                assert(rest.drop_first() =~= inter.skip(j + 1));
            }
            let c = &comps[j];
            if crate::storage::is_dot_component(c) {
                // `.` is skipped
            } else {
                let cur_is_dir = match self.storage.get_inode(&node) {
                    NodeData::Dir { .. } => true,
                    NodeData::File { .. } => false,
                };
                if !cur_is_dir {
                    proof {
                        assert(walk_goal == (self@.storage, Err::<(NodeId, LinkId), u16>(
                            ERRNO_BADF,
                        )));
                    }
                    return Err(ERRNO_BADF);
                }
                match self.storage.lookup_entry(node, c) {
                    Some(l) => {
                        node = self.storage.get_link(&l).node;
                        link = l;
                    },
                    None => {
                        let ghost prev = self@.storage;
                        let name_owned = crate::storage::copy_bytes(c);
                        let (n2, l2) = self.storage.new_dir((node, link), name_owned);
                        proof {
                            assert(self@.storage =~~= new_dir_spec(prev, (node, link), c@).0);
                            assert((n2, l2) == new_dir_spec(prev, (node, link), c@).1);
                            crate::storage::lemma_extends_trans(s0, prev, self@.storage);
                            self.lemma_opens_valid_after_extend(prev);
                        }
                        node = n2;
                        link = l2;
                    },
                }
            }
            j += 1;
        }
        proof {
            assert(inter.skip(inter.len() as int) =~= Seq::<Seq<u8>>::empty());
            assert(walk_goal == (self@.storage, Ok::<(NodeId, LinkId), u16>((node, link))));
        }
        Ok((node, link))
    }

    /// Growing the storage keeps every live descriptor's inode and link
    /// valid.
    proof fn lemma_opens_valid_after_extend(&self, prev: StorageView)
        requires
            self@.storage.extends(prev),
            forall|k: int|
                0 <= k < self@.opens.len() ==> match #[trigger] self@.opens[k] {
                    Some(e) => prev.valid_node(e.node_id) && prev.valid_link(e.link_id),
                    None => true,
                },
        ensures
            forall|k: int|
                0 <= k < self@.opens.len() ==> match #[trigger] self@.opens[k] {
                    Some(e) => self@.storage.valid_node(e.node_id) && self@.storage.valid_link(
                        e.link_id,
                    ),
                    None => true,
                },
    {
        assert forall|k: int| 0 <= k < self@.opens.len() implies match #[trigger] self@.opens[k] {
            Some(e) => self@.storage.valid_node(e.node_id) && self@.storage.valid_link(e.link_id),
            None => true,
        } by {
            match self@.opens[k] {
                Some(e) => {
                    assert(prev.valid_node(e.node_id));
                    assert(prev.valid_link(e.link_id));
                },
                None => {},
            }
        }
    }

    /// The fdstat of a descriptor: the inode's file type, the
    /// descriptor's flags, and the fixed read-only rights mask.
    pub fn get_fd_stat(&self, fd: Vfd) -> (r: Result<Fdstat, u16>)
        requires
            self.inv(),
        ensures
            r == fdstat_spec(self@, fd),
    {
        let entry = match self.get_fd_entry(fd) {
            Ok(e) => e,
            Err(e) => {
                return Err(e);
            },
        };
        let is_directory = match self.storage.get_inode(&entry.node_id) {
            NodeData::Dir { .. } => true,
            NodeData::File { .. } => false,
        };
        Ok(
            Fdstat {
                fs_filetype: if is_directory {
                    FILETYPE_DIRECTORY
                } else {
                    FILETYPE_REGULAR_FILE
                },
                fs_flags: entry.flags,
                fs_rights_base: READ_ONLY_RIGHTS,
                fs_rights_inheriting: READ_ONLY_RIGHTS,
            },
        )
    }

    /// The filestat of an inode.
    pub fn get_filestat_from_node_id(&self, node_id: NodeId) -> (r: Filestat)
        requires
            self.inv(),
            self@.storage.valid_node(node_id),
        ensures
            r == filestat_spec(self@.storage, node_id),
    {
        let ino = node_id.ino();
        match self.storage.get_inode(&node_id) {
            NodeData::File { content } => Filestat {
                dev: 0,
                ino,
                filetype: FILETYPE_REGULAR_FILE,
                nlink: 0,
                size: content.len() as u64,
                atim: 0,
                mtim: 0,
                ctim: 0,
            },
            NodeData::Dir { .. } => Filestat {
                dev: 0,
                ino,
                filetype: FILETYPE_DIRECTORY,
                nlink: 0,
                size: 0,
                atim: 0,
                mtim: 0,
                ctim: 0,
            },
        }
    }

    /// Read up to `max_bytes` bytes from the file behind a live
    /// descriptor, starting at its cursor, and advance the cursor by the
    /// bytes delivered. A short read happens only when the content is
    /// exhausted; a cursor at or past the end yields zero bytes. Reading
    /// from a directory is "is a directory".
    pub fn read_from(&mut self, fd: Vfd, max_bytes: usize) -> (r: Result<Vec<u8>, u16>)
        requires
            old(self).inv(),
        ensures
            final(self).inv(),
            final(self)@.preopens == old(self)@.preopens,
            final(self)@.storage == old(self)@.storage,
            !old(self)@.live(fd) ==> r == Err::<Vec<u8>, u16>(ERRNO_BADF) && final(self)@.opens
                == old(self)@.opens,
            old(self)@.live(fd) && old(self)@.storage.is_dir(old(self)@.entry(fd).node_id) ==> r
                == Err::<Vec<u8>, u16>(crate::errno::ERRNO_ISDIR) && final(self)@.opens == old(self)@.opens,
            old(self)@.live(fd) && !old(self)@.storage.is_dir(old(self)@.entry(fd).node_id)
                ==> {
                let content = old(self)@.storage.content_of(old(self)@.entry(fd).node_id);
                let off = old(self)@.entry(fd).offset;
                let (start, n) = read_window(content, off, max_bytes);
                &&& r matches Ok(data) && data@ == content.subrange(start, start + n)
                &&& final(self)@.opens == old(self)@.opens.update(
                    fd as int,
                    Some(FdEntry { offset: (off + n) as u64, ..old(self)@.entry(fd) }),
                )
            },
    {
        let entry = match self.get_fd_entry(fd) {
            Ok(e) => e,
            Err(e) => {
                return Err(e);
            },
        };
        let ghost content_view = old(self)@.storage.content_of(old(self)@.entry(fd).node_id);
        let ghost window = read_window(content_view, entry.offset, max_bytes);
        let (data, n) = {
            let content = match self.storage.get_inode(&entry.node_id) {
                NodeData::Dir { .. } => {
                    return Err(crate::errno::ERRNO_ISDIR);
                },
                NodeData::File { content } => content,
            };
            let len = content.len();
            let off_u64 = entry.offset;
            let start: usize = if off_u64 <= len as u64 {
                off_u64 as usize
            } else {
                len
            };
            let avail = len - start;
            let n: usize = if max_bytes <= avail {
                max_bytes
            } else {
                avail
            };
            let data = crate::storage::sub_bytes(content, start, n);
            proof {
                assert(content@ == content_view);
                assert(window == (start as int, n as int));
            }
            (data, n)
        };
        let new_offset = entry.offset + (n as u64);
        self.set_fd_offset(fd, new_offset);
        Ok(data)
    }

    /// Read directory entries from a live directory descriptor into a
    /// buffer of `buf_len` bytes, skipping the first `cookie` entries.
    /// Returns the bytes to place in the caller's buffer and the
    /// `bufused` value to report; on truncation the latter is the full
    /// buffer length even though fewer bytes were written.
    pub fn read_dir(&self, fd: Vfd, buf_len: usize, cookie: u64) -> (r: Result<(Vec<u8>, usize), u16>)
        requires
            self.inv(),
        ensures
            !self@.live(fd) ==> r == Err::<(Vec<u8>, usize), u16>(ERRNO_BADF),
            self@.live(fd) && !self@.storage.is_dir(self@.entry(fd).node_id) ==> r == Err::<
                (Vec<u8>, usize),
                u16,
            >(crate::errno::ERRNO_NOTDIR),
            self@.live(fd) && self@.storage.is_dir(self@.entry(fd).node_id) ==> {
                let (bytes, used) = crate::readdir::readdir_spec(
                    self@.storage,
                    self@.entry(fd).node_id,
                    buf_len as int,
                    cookie,
                );
                &&& r matches Ok(out) && out.0@ == bytes && out.1 == used
                &&& bytes.len() <= buf_len
            },
    {
        let entry = match self.get_fd_entry(fd) {
            Ok(e) => e,
            Err(e) => {
                return Err(e);
            },
        };
        let ghost s = self@.storage;
        let ghost dir = entry.node_id;
        let entries = match self.storage.get_inode(&entry.node_id) {
            NodeData::Dir { entries } => entries,
            NodeData::File { .. } => {
                return Err(crate::errno::ERRNO_NOTDIR);
            },
        };
        let ghost evs = s.entries_of(dir);
        proof {
            assert(evs =~= entries@.map_values(|e: DirEntry| e@));
        }
        let start: usize = if cookie >= entries.len() as u64 {
            entries.len()
        } else {
            cookie as usize
        };
        let ghost goal = crate::readdir::readdir_spec(s, dir, buf_len as int, cookie);
        let mut out: Vec<u8> = Vec::new();
        proof {
            assert(goal == crate::readdir::readdir_loop(
                s,
                evs.skip(start as int),
                start as int,
                buf_len as int,
                Seq::<u8>::empty(),
            ));
        }
        let mut i: usize = start;
        while i < entries.len()
            invariant
                start <= i <= entries.len(),
                self.inv(),
                s == self@.storage,
                s.wf(),
                s.valid_node(dir),
                s.is_dir(dir),
                self@.live(fd),
                dir == self@.entry(fd).node_id,
                goal == crate::readdir::readdir_spec(
                    self@.storage,
                    self@.entry(fd).node_id,
                    buf_len as int,
                    cookie,
                ),
                evs == s.entries_of(dir),
                evs.len() == entries@.len(),
                evs == entries@.map_values(|e: DirEntry| e@),
                out@.len() <= buf_len,
                goal == crate::readdir::readdir_loop(
                    s,
                    evs.skip(i as int),
                    i as int,
                    buf_len as int,
                    out@,
                ),
            decreases entries.len() - i,
        {
            let ghost rem = evs.skip(i as int);
            proof {
                assert(rem[0] == evs[i as int]);
                assert(rem.drop_first() =~= evs.skip(i + 1));
                assert(evs[i as int].link_id.index < s.links.len());
            }
            let e = &entries[i];
            let node = self.storage.get_link(&e.link_id).node;
            let ftype = match self.storage.get_inode(&node) {
                NodeData::Dir { .. } => FILETYPE_DIRECTORY,
                NodeData::File { .. } => FILETYPE_REGULAR_FILE,
            };
            let header = crate::readdir::encode_dirent(
                (i as u64) + 1,
                node.ino(),
                e.name.len() as u32,
                ftype,
            );
            if buf_len - out.len() < crate::errno::DIRENT_HEADER_SIZE {
                let fit = buf_len - out.len();
                push_prefix(&mut out, &header, fit);
                return Ok((out, buf_len));
            }
            push_prefix(&mut out, &header, crate::errno::DIRENT_HEADER_SIZE);
            if buf_len - out.len() < e.name.len() {
                let fit = buf_len - out.len();
                push_prefix(&mut out, &e.name, fit);
                return Ok((out, buf_len));
            }
            push_prefix(&mut out, &e.name, e.name.len());
            proof {
                assert(e.name@.take(e.name@.len() as int) =~= e.name@);
                assert(header@.take(crate::errno::DIRENT_HEADER_SIZE as int) =~= header@);
            }
            i += 1;
        }
        proof {
            assert(evs.skip(evs.len() as int) =~= Seq::<EntryView>::empty());
        }
        let used = out.len();
        Ok((out, used))
    }

    /// Resolve `path` against a live descriptor and stat the result.
    pub fn get_filestat_at_path(&self, base: Vfd, path: &Vec<u8>) -> (r: Result<Filestat, u16>)
        requires
            self.inv(),
        ensures
            !self@.live(base) ==> r == Err::<Filestat, u16>(ERRNO_BADF),
            self@.live(base) ==> match resolve_spec(
                self@.storage,
                self@.entry(base).node_id,
                self@.entry(base).link_id,
                path@,
            ) {
                Ok((n, l)) => r == Ok::<Filestat, u16>(filestat_spec(self@.storage, n)),
                Err(e) => r == Err::<Filestat, u16>(e),
            },
    {
        let entry = match self.get_fd_entry(base) {
            Ok(e) => e,
            Err(e) => {
                return Err(e);
            },
        };
        let (node_id, _link_id) = match self.storage.resolve_node(
            entry.node_id,
            entry.link_id,
            path,
        ) {
            Ok(p) => p,
            Err(e) => {
                return Err(e);
            },
        };
        Ok(self.get_filestat_from_node_id(node_id))
    }
}

impl Default for EmbeddedFs {
    /// An empty embedded file system over an empty arena.
    fn default() -> (r: EmbeddedFs)
        ensures
            r.inv(),
            r@.preopens.len() == 0,
            r@.opens.len() == 0,
            r@.storage.nodes.len() == 0,
            r@.storage.links.len() == 0,
    {
        EmbeddedFs::new(LinkedStorage::new())
    }
}

} // verus!
