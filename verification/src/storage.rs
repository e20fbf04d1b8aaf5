//! Arena storage for the embedded file system: all inodes and hard links
//! live in two growable arrays, identified by their stable indices. A file
//! inode carries an immutable byte buffer; a directory inode carries its
//! entry list in insertion order. Path resolution walks this arena.

use vstd::prelude::*;

use crate::errno::ERRNO_NOENT;
use crate::errno::ERRNO_NOTDIR;

verus! {

/// The path separator byte.
pub const SLASH: u8 = 47;

/// The byte of `.`.
pub const DOT: u8 = 46;

/// Identifies one inode. Identity is stable for the lifetime of the storage.
#[derive(Clone, Copy, Debug, PartialEq, Eq, Structural)]
pub struct NodeId {
    /// Index into the storage's inode arena.
    pub index: usize,
}

impl NodeId {
    /// The inode number exposed to the guest: any total injection into
    /// `u64` is acceptable, and the stable arena index is one.
    pub fn ino(&self) -> (r: u64)
        ensures
            r == self.index as u64,
    {
        self.index as u64
    }
}

/// Identifies one occurrence of an inode at a particular parent.
#[derive(Clone, Copy, Debug, PartialEq, Eq, Structural)]
pub struct LinkId {
    /// Index into the storage's link arena.
    pub index: usize,
}

/// A hard link: the inode it points at, and the parent link it hangs
/// under. The parent is absent exactly when the link is a preopen root.
#[derive(Clone, Copy)]
pub struct Link {
    pub parent: Option<LinkId>,
    pub node: NodeId,
}

/// One directory entry: a name bound to a link.
pub struct DirEntry {
    pub name: Vec<u8>,
    pub link_id: LinkId,
}

/// The mathematical view of a directory entry.
#[verifier::ext_equal]
pub ghost struct EntryView {
    pub name: Seq<u8>,
    pub link_id: LinkId,
}

impl View for DirEntry {
    type V = EntryView;

    open spec fn view(&self) -> EntryView {
        EntryView { name: self.name@, link_id: self.link_id }
    }
}

/// An inode: a file with immutable content, or a directory owning its
/// entry list.
pub enum NodeData {
    File { content: Vec<u8> },
    Dir { entries: Vec<DirEntry> },
}

/// The mathematical view of an inode.
#[verifier::ext_equal]
pub ghost enum NodeView {
    File { content: Seq<u8> },
    Dir { entries: Seq<EntryView> },
}

impl View for NodeData {
    type V = NodeView;

    open spec fn view(&self) -> NodeView {
        match self {
            NodeData::File { content } => NodeView::File { content: content@ },
            NodeData::Dir { entries } => NodeView::Dir {
                entries: entries@.map_values(|e: DirEntry| e@),
            },
        }
    }
}

/// The mathematical view of the whole arena.
#[verifier::ext_equal]
pub ghost struct StorageView {
    pub nodes: Seq<NodeView>,
    pub links: Seq<Link>,
}

/// Arena storage owning all inodes and links.
pub struct LinkedStorage {
    nodes: Vec<NodeData>,
    links: Vec<Link>,
}

impl View for LinkedStorage {
    type V = StorageView;

    closed spec fn view(&self) -> StorageView {
        StorageView {
            nodes: self.nodes@.map_values(|n: NodeData| n@),
            links: self.links@,
        }
    }
}

impl StorageView {
    /// Every link points at an existing inode; a parent link always has a
    /// smaller index than its child (links are appended under existing
    /// parents, which also rules out parent cycles); every directory entry
    /// names an existing link.
    pub open spec fn wf(self) -> bool {
        &&& forall|i: int|
            0 <= i < self.links.len() ==> {
                &&& (#[trigger] self.links[i]).node.index < self.nodes.len()
                &&& match self.links[i].parent {
                    Some(p) => p.index < i,
                    None => true,
                }
            }
        &&& forall|i: int|
            0 <= i < self.nodes.len() ==> match #[trigger] self.nodes[i] {
                NodeView::Dir { entries } => forall|j: int|
                    0 <= j < entries.len() ==> (#[trigger] entries[j]).link_id.index
                        < self.links.len(),
                NodeView::File { .. } => true,
            }
    }

    /// The entry list of inode `n`, empty if `n` is a file.
    pub open spec fn entries_of(self, n: NodeId) -> Seq<EntryView> {
        match self.nodes[n.index as int] {
            NodeView::Dir { entries } => entries,
            NodeView::File { .. } => Seq::empty(),
        }
    }

    /// Whether inode `n` is a directory.
    pub open spec fn is_dir(self, n: NodeId) -> bool {
        self.nodes[n.index as int] is Dir
    }

    /// The content of file inode `n`, empty if `n` is a directory.
    pub open spec fn content_of(self, n: NodeId) -> Seq<u8> {
        match self.nodes[n.index as int] {
            NodeView::File { content } => content,
            NodeView::Dir { .. } => Seq::empty(),
        }
    }

    pub open spec fn valid_node(self, n: NodeId) -> bool {
        n.index < self.nodes.len()
    }

    pub open spec fn valid_link(self, l: LinkId) -> bool {
        l.index < self.links.len()
    }

    /// The link record of `l`.
    pub open spec fn link_of(self, l: LinkId) -> Link {
        self.links[l.index as int]
    }

    /// Storage grows by appending: old inodes keep their tag, old file
    /// contents are unchanged, old links are unchanged, and a directory
    /// only ever gains entries at the tail of its list.
    pub open spec fn extends(self, old: StorageView) -> bool {
        &&& old.nodes.len() <= self.nodes.len()
        &&& old.links.len() <= self.links.len()
        &&& forall|i: int| 0 <= i < old.links.len() ==> self.links[i] == old.links[i]
        &&& forall|i: int|
            0 <= i < old.nodes.len() ==> match #[trigger] old.nodes[i] {
                NodeView::File { content } => self.nodes[i] == NodeView::File { content },
                NodeView::Dir { entries } => match self.nodes[i] {
                    NodeView::Dir { entries: new_entries } => entries.is_prefix_of(new_entries),
                    NodeView::File { .. } => false,
                },
            }
    }
}

/// A name may stand in a directory entry: non-empty, free of `/`, and
/// neither `.` nor `..`.
pub open spec fn valid_name(name: Seq<u8>) -> bool {
    &&& name.len() > 0
    &&& !name.contains(SLASH)
    &&& name != seq![DOT]
    &&& name != seq![DOT, DOT]
}

/// One step of splitting a path on `/`: a separator opens a fresh (empty)
/// component, any other byte extends the last component.
pub open spec fn split_push(cs: Seq<Seq<u8>>, b: u8) -> Seq<Seq<u8>> {
    if b == SLASH {
        cs.push(Seq::empty())
    } else {
        cs.update(cs.len() - 1, cs.last().push(b))
    }
}

/// Split a path into its slash-separated components, keeping empty
/// components (resolution skips them). The empty path has one empty
/// component.
pub open spec fn split_bytes(p: Seq<u8>) -> Seq<Seq<u8>>
    decreases p.len(),
{
    if p.len() == 0 {
        seq![Seq::empty()]
    } else {
        split_push(split_bytes(p.drop_last()), p.last())
    }
}

pub proof fn lemma_split_bytes_len(p: Seq<u8>)
    ensures
        split_bytes(p).len() >= 1,
    decreases p.len(),
{
    if p.len() > 0 {
        lemma_split_bytes_len(p.drop_last());
    }
}

/// The preopen root implied by `link`: follow the parent chain upward
/// until a link with no parent.
pub open spec fn root_link_of(s: StorageView, link: LinkId) -> LinkId
    decreases link.index,
{
    match s.links[link.index as int].parent {
        None => link,
        Some(p) => if p.index < link.index {
            root_link_of(s, p)
        } else {
            link
        },
    }
}

/// Linear scan of a directory entry list: the first entry whose name is
/// byte-equal to `name`, if any.
pub open spec fn entry_lookup(entries: Seq<EntryView>, name: Seq<u8>) -> Option<LinkId>
    decreases entries.len(),
{
    if entries.len() == 0 {
        None
    } else if entries[0].name == name {
        Some(entries[0].link_id)
    } else {
        entry_lookup(entries.drop_first(), name)
    }
}

/// Iterative path resolution over split components, starting from the
/// cursor `(node, link)`:
/// empty components and `.` are skipped; `..` follows the cursor link's
/// parent and stays put at a root; any other component requires the
/// cursor to be a directory (else "not a directory") and is looked up by
/// exact byte equality in its entry list (a miss is "no such file or
/// directory").
pub open spec fn resolve_components(
    s: StorageView,
    node: NodeId,
    link: LinkId,
    comps: Seq<Seq<u8>>,
) -> Result<(NodeId, LinkId), u16>
    decreases comps.len(),
{
    if comps.len() == 0 {
        Ok((node, link))
    } else {
        let c = comps[0];
        let rest = comps.drop_first();
        if c.len() == 0 || c == seq![DOT] {
            resolve_components(s, node, link, rest)
        } else if c == seq![DOT, DOT] {
            match s.link_of(link).parent {
                None => resolve_components(s, node, link, rest),
                Some(p) => resolve_components(s, s.link_of(p).node, p, rest),
            }
        } else if !s.is_dir(node) {
            Err(ERRNO_NOTDIR)
        } else {
            match entry_lookup(s.entries_of(node), c) {
                None => Err(ERRNO_NOENT),
                Some(l) => resolve_components(s, s.link_of(l).node, l, rest),
            }
        }
    }
}

/// What `resolve_node` returns: a path starting with `/` first resets the
/// cursor to the preopen root implied by `base_link`, then the components
/// are walked one by one.
pub open spec fn resolve_spec(
    s: StorageView,
    base: NodeId,
    base_link: LinkId,
    path: Seq<u8>,
) -> Result<(NodeId, LinkId), u16> {
    if path.len() > 0 && path[0] == SLASH {
        let rl = root_link_of(s, base_link);
        resolve_components(s, s.link_of(rl).node, rl, split_bytes(path))
    } else {
        resolve_components(s, base, base_link, split_bytes(path))
    }
}

/// An owned copy of a byte buffer.
pub fn copy_bytes(a: &Vec<u8>) -> (r: Vec<u8>)
    ensures
        r@ == a@,
{
    let mut r: Vec<u8> = Vec::new();
    let mut i: usize = 0;
    while i < a.len()
        invariant
            i <= a.len(),
            r@ == a@.take(i as int),
        decreases a.len() - i,
    {
        r.push(a[i]);
        proof {
            assert(r@ =~= a@.take(i + 1));
        }
        i += 1;
    }
    proof {
        assert(a@.take(a@.len() as int) =~= a@);
    }
    r
}

/// An owned copy of `count` bytes of `src` starting at `start`.
pub fn sub_bytes(src: &Vec<u8>, start: usize, count: usize) -> (r: Vec<u8>)
    requires
        start + count <= src@.len(),
    ensures
        r@ == src@.subrange(start as int, start + count),
{
    let mut r: Vec<u8> = Vec::new();
    let total = src.len();
    let mut k: usize = 0;
    while k < count
        invariant
            k <= count,
            start + count <= src@.len(),
            src@.len() == total,
            r@ == src@.subrange(start as int, start + k),
        decreases count - k,
    {
        r.push(src[start + k]);
        proof {
            assert(r@ =~= src@.subrange(start as int, start + k + 1));
        }
        k += 1;
    }
    r
}

/// Byte-for-byte equality of two buffers; names are compared raw, with no
/// normalization.
pub fn bytes_eq(a: &Vec<u8>, b: &Vec<u8>) -> (r: bool)
    ensures
        r == (a@ == b@),
{
    if a.len() != b.len() {
        proof {
            assert(a@ != b@);
        }
        return false;
    }
    let mut i: usize = 0;
    while i < a.len()
        invariant
            i <= a.len(),
            a@.len() == b@.len(),
            forall|k: int| 0 <= k < i ==> a@[k] == b@[k],
        decreases a.len() - i,
    {
        if a[i] != b[i] {
            return false;
        }
        i += 1;
    }
    proof {
        assert(a@ =~= b@);
    }
    true
}

/// Whether `c` is exactly `.`.
pub(crate) fn is_dot_component(c: &Vec<u8>) -> (r: bool)
    ensures
        r == (c@ == seq![DOT]),
{
    let r = c.len() == 1 && c[0] == DOT;
    proof {
        if r {
            assert(c@ =~= seq![DOT]);
        } else {
            if c@ == seq![DOT] {
                assert(c@.len() == 1 && c@[0] == DOT);
            }
        }
    }
    r
}

/// Whether `c` is exactly `..`.
fn is_dotdot(c: &Vec<u8>) -> (r: bool)
    ensures
        r == (c@ == seq![DOT, DOT]),
{
    let r = c.len() == 2 && c[0] == DOT && c[1] == DOT;
    proof {
        if r {
            assert(c@ =~= seq![DOT, DOT]);
        } else {
            if c@ == seq![DOT, DOT] {
                assert(c@.len() == 2 && c@[0] == DOT && c@[1] == DOT);
            }
        }
    }
    r
}

/// Split a path buffer into its slash-separated components.
pub(crate) fn split_path_components(path: &Vec<u8>) -> (r: Vec<Vec<u8>>)
    ensures
        r@.map_values(|c: Vec<u8>| c@) == split_bytes(path@),
        r@.len() >= 1,
{
    let mut comps: Vec<Vec<u8>> = Vec::new();
    comps.push(Vec::new());
    proof {
        assert(comps@.map_values(|c: Vec<u8>| c@) =~~= split_bytes(path@.take(0)));
    }
    let mut i: usize = 0;
    while i < path.len()
        invariant
            i <= path.len(),
            comps@.len() >= 1,
            comps@.map_values(|c: Vec<u8>| c@) == split_bytes(path@.take(i as int)),
        decreases path.len() - i,
    {
        let ghost prev = comps@.map_values(|c: Vec<u8>| c@);
        let b = path[i];
        if b == SLASH {
            comps.push(Vec::new());
            proof {
                assert(comps@.map_values(|c: Vec<u8>| c@) =~~= prev.push(Seq::empty()));
            }
        } else {
            let last = comps.len() - 1;
            comps[last].push(b);
            proof {
                assert(comps@.map_values(|c: Vec<u8>| c@) =~~= prev.update(
                    prev.len() - 1,
                    prev.last().push(b),
                ));
            }
        }
        proof {
            assert(path@.take(i + 1).drop_last() =~= path@.take(i as int));
            assert(path@.take(i + 1).last() == path@[i as int]);
            assert(comps@.map_values(|c: Vec<u8>| c@) == split_bytes(path@.take(i + 1)));
        }
        i += 1;
    }
    proof {
        assert(path@.take(path@.len() as int) =~= path@);
    }
    comps
}

impl LinkedStorage {
    /// Resolve `path` against the cursor `(base, base_link)`. The empty
    /// path resolves to the base; a trailing slash is tolerated and does
    /// not require the target to be a directory.
    pub fn resolve_node(&self, base: NodeId, base_link: LinkId, path: &Vec<u8>) -> (r: Result<
        (NodeId, LinkId),
        u16,
    >)
        requires
            self@.wf(),
            self@.valid_node(base),
            self@.valid_link(base_link),
        ensures
            r == resolve_spec(self@, base, base_link, path@),
            r matches Ok(p) ==> self@.valid_node(p.0) && self@.valid_link(p.1),
    {
        let mut node = base;
        let mut link = base_link;
        if path.len() > 0 && path[0] == SLASH {
            loop
                invariant
                    self@.wf(),
                    self@.valid_link(link),
                    root_link_of(self@, link) == root_link_of(self@, base_link),
                ensures
                    self@.valid_link(link),
                    link == root_link_of(self@, base_link),
                decreases link.index,
            {
                let l = self.get_link(&link);
                match l.parent {
                    Some(p) => {
                        proof {
                            assert(p.index < link.index);
                            assert(root_link_of(self@, link) == root_link_of(self@, p));
                        }
                        link = p;
                    },
                    None => {
                        proof {
                            assert(root_link_of(self@, link) == link);
                        }
                        break;
                    },
                }
            }
            node = self.get_link(&link).node;
        }
        let comps = split_path_components(path);
        let ghost comps_view = comps@.map_values(|c: Vec<u8>| c@);
        let ghost goal = resolve_spec(self@, base, base_link, path@);
        proof {
            assert(comps_view.skip(0) =~= comps_view);
        }
        let mut idx: usize = 0;
        while idx < comps.len()
            invariant
                idx <= comps.len(),
                self@.wf(),
                self@.valid_node(node),
                self@.valid_link(link),
                comps_view == comps@.map_values(|c: Vec<u8>| c@),
                goal == resolve_spec(self@, base, base_link, path@),
                self@.valid_node(base),
                self@.valid_link(base_link),
                resolve_components(self@, node, link, comps_view.skip(idx as int)) == goal,
            decreases comps.len() - idx,
        {
            let ghost rest = comps_view.skip(idx as int);
            proof {
                assert(rest[0] == comps_view[idx as int]);
                assert(rest.drop_first() =~= comps_view.skip(idx + 1));
            }
            let c = &comps[idx];
            if c.len() == 0 || is_dot_component(c) {
                // empty component or `.`: no-op
            } else if is_dotdot(c) {
                let l = self.get_link(&link);
                match l.parent {
                    None => {
                        // at a preopen root: stay
                    },
                    Some(p) => {
                        node = self.get_link(&p).node;
                        link = p;
                    },
                }
            } else {
                let is_directory = match self.get_inode(&node) {
                    NodeData::Dir { .. } => true,
                    NodeData::File { .. } => false,
                };
                if !is_directory {
                    return Err(ERRNO_NOTDIR);
                }
                let found = self.lookup_entry(node, c);
                match found {
                    None => {
                        return Err(ERRNO_NOENT);
                    },
                    Some(l) => {
                        node = self.get_link(&l).node;
                        link = l;
                    },
                }
            }
            idx += 1;
        }
        proof {
            assert(comps_view.skip(comps_view.len() as int) =~= Seq::<Seq<u8>>::empty());
        }
        Ok((node, link))
    }

    /// Linear scan of directory `dir` for an entry named `name`.
    pub(crate) fn lookup_entry(&self, dir: NodeId, name: &Vec<u8>) -> (r: Option<LinkId>)
        requires
            self@.wf(),
            self@.valid_node(dir),
            self@.is_dir(dir),
        ensures
            r == entry_lookup(self@.entries_of(dir), name@),
            r matches Some(l) ==> self@.valid_link(l),
    {
        let entries = match self.get_inode(&dir) {
            NodeData::Dir { entries } => entries,
            NodeData::File { .. } => {
                return None;
            },
        };
        let ghost evs = self@.entries_of(dir);
        proof {
            assert(evs =~= entries@.map_values(|e: DirEntry| e@));
            assert(evs.skip(0) =~= evs);
        }
        let mut j: usize = 0;
        while j < entries.len()
            invariant
                j <= entries.len(),
                evs == entries@.map_values(|e: DirEntry| e@),
                evs.len() == entries@.len(),
                self@.wf(),
                self@.valid_node(dir),
                self@.is_dir(dir),
                evs == self@.entries_of(dir),
                entry_lookup(evs.skip(j as int), name@) == entry_lookup(evs, name@),
            decreases entries.len() - j,
        {
            proof {
                assert(evs.skip(j as int)[0] == evs[j as int]);
                assert(evs.skip(j as int).drop_first() =~= evs.skip(j + 1));
            }
            if bytes_eq(&entries[j].name, name) {
                let l = entries[j].link_id;
                proof {
                    assert(evs[j as int].link_id.index < self@.links.len());
                }
                return Some(l);
            }
            j += 1;
        }
        proof {
            assert(evs.skip(evs.len() as int) =~= Seq::<EntryView>::empty());
        }
        None
    }
}

impl Default for LinkedStorage {
    /// An empty arena.
    fn default() -> (r: LinkedStorage)
        ensures
            r@.wf(),
            r@.nodes.len() == 0,
            r@.links.len() == 0,
    {
        LinkedStorage::new()
    }
}

impl LinkedStorage {
    /// An empty arena.
    pub fn new() -> (r: LinkedStorage)
        ensures
            r@.wf(),
            r@.nodes.len() == 0,
            r@.links.len() == 0,
    {
        LinkedStorage { nodes: Vec::new(), links: Vec::new() }
    }

    /// Create a fresh directory with no parent; returns its identity and
    /// the root link.
    pub fn new_root_dir(&mut self) -> (r: (NodeId, LinkId))
        requires
            old(self)@.wf(),
        ensures
            final(self)@.wf(),
            r.0.index == old(self)@.nodes.len(),
            r.1.index == old(self)@.links.len(),
            final(self)@.nodes == old(self)@.nodes.push(NodeView::Dir { entries: Seq::empty() }),
            final(self)@.links == old(self)@.links.push(Link { parent: None, node: r.0 }),
            final(self)@.extends(old(self)@),
    {
        let node_id = NodeId { index: self.nodes.len() };
        let link_id = LinkId { index: self.links.len() };
        self.nodes.push(NodeData::Dir { entries: Vec::new() });
        self.links.push(Link { parent: None, node: node_id });
        proof {
            assert(self@.nodes =~~= old(self)@.nodes.push(
                NodeView::Dir { entries: Seq::empty() },
            ));
            lemma_wf_after_append(
                old(self)@,
                self@,
                NodeView::Dir { entries: Seq::empty() },
                Link { parent: None, node: node_id },
            );
        }
        (node_id, link_id)
    }
}

impl LinkedStorage {
    /// Append `entry` to the entry list of directory inode `dir`.
    fn push_entry(&mut self, dir: NodeId, entry: DirEntry)
        requires
            old(self)@.valid_node(dir),
            old(self)@.is_dir(dir),
        ensures
            final(self)@.nodes == old(self)@.nodes.update(
                dir.index as int,
                NodeView::Dir { entries: old(self)@.entries_of(dir).push(entry@) },
            ),
            final(self)@.links == old(self)@.links,
    {
        let ghost entry_view = entry@;
        match &mut self.nodes[dir.index] {
            NodeData::Dir { entries } => entries.push(entry),
            NodeData::File { .. } => {},
        }
        proof {
            assert(self@.nodes =~~= old(self)@.nodes.update(
                dir.index as int,
                NodeView::Dir { entries: old(self)@.entries_of(dir).push(entry_view) },
            ));
        }
    }

    /// Allocate a new directory inode and a new link to it under `parent`,
    /// and append an entry binding `name` to the new link at the tail of
    /// `parent`'s entry list. No uniqueness check is made: callers are
    /// responsible for not creating duplicate names.
    pub fn new_dir(&mut self, parent: (NodeId, LinkId), name: Vec<u8>) -> (r: (NodeId, LinkId))
        requires
            old(self)@.wf(),
            old(self)@.valid_node(parent.0),
            old(self)@.valid_link(parent.1),
            old(self)@.is_dir(parent.0),
        ensures
            final(self)@.wf(),
            final(self)@.extends(old(self)@),
            r.0.index == old(self)@.nodes.len(),
            r.1.index == old(self)@.links.len(),
            final(self)@.nodes == old(self)@.nodes.update(
                parent.0.index as int,
                NodeView::Dir {
                    entries: old(self)@.entries_of(parent.0).push(
                        EntryView { name: name@, link_id: r.1 },
                    ),
                },
            ).push(NodeView::Dir { entries: Seq::empty() }),
            final(self)@.links == old(self)@.links.push(
                Link { parent: Some(parent.1), node: r.0 },
            ),
    {
        let node = NodeData::Dir { entries: Vec::new() };
        proof {
            assert(node@ =~~= (NodeView::Dir { entries: Seq::empty() }));
        }
        self.attach_child(parent, name, node)
    }

    /// Allocate a new file inode holding `content` and a new link to it
    /// under `parent`, appending an entry binding `name` to the new link.
    pub fn new_file(
        &mut self,
        parent: (NodeId, LinkId),
        name: Vec<u8>,
        content: Vec<u8>,
    ) -> (r: (NodeId, LinkId))
        requires
            old(self)@.wf(),
            old(self)@.valid_node(parent.0),
            old(self)@.valid_link(parent.1),
            old(self)@.is_dir(parent.0),
        ensures
            final(self)@.wf(),
            final(self)@.extends(old(self)@),
            r.0.index == old(self)@.nodes.len(),
            r.1.index == old(self)@.links.len(),
            final(self)@.nodes == old(self)@.nodes.update(
                parent.0.index as int,
                NodeView::Dir {
                    entries: old(self)@.entries_of(parent.0).push(
                        EntryView { name: name@, link_id: r.1 },
                    ),
                },
            ).push(NodeView::File { content: content@ }),
            final(self)@.links == old(self)@.links.push(
                Link { parent: Some(parent.1), node: r.0 },
            ),
    {
        let ghost content_view = content@;
        let node = NodeData::File { content };
        proof {
            assert(node@ =~~= (NodeView::File { content: content_view }));
        }
        self.attach_child(parent, name, node)
    }

    /// Shared tail of `new_dir` and `new_file`: append the inode, the link
    /// and the parent entry.
    fn attach_child(&mut self, parent: (NodeId, LinkId), name: Vec<u8>, node: NodeData) -> (r: (
        NodeId,
        LinkId,
    ))
        requires
            old(self)@.wf(),
            old(self)@.valid_node(parent.0),
            old(self)@.valid_link(parent.1),
            old(self)@.is_dir(parent.0),
            node@ matches NodeView::Dir { entries } ==> entries.len() == 0,
        ensures
            final(self)@.wf(),
            final(self)@.extends(old(self)@),
            r.0.index == old(self)@.nodes.len(),
            r.1.index == old(self)@.links.len(),
            final(self)@.nodes == old(self)@.nodes.update(
                parent.0.index as int,
                NodeView::Dir {
                    entries: old(self)@.entries_of(parent.0).push(
                        EntryView { name: name@, link_id: r.1 },
                    ),
                },
            ).push(node@),
            final(self)@.links == old(self)@.links.push(
                Link { parent: Some(parent.1), node: r.0 },
            ),
    {
        let ghost node_view = node@;
        let node_id = NodeId { index: self.nodes.len() };
        let link_id = LinkId { index: self.links.len() };
        self.nodes.push(node);
        self.links.push(Link { parent: Some(parent.1), node: node_id });
        proof {
            assert(self@.nodes =~~= old(self)@.nodes.push(node_view));
        }
        let entry = DirEntry { name, link_id };
        self.push_entry(parent.0, entry);
        proof {
            lemma_wf_after_child(old(self)@, self@, parent, node_view, node_id, link_id, name@);
        }
        (node_id, link_id)
    }

    /// Return the inode record of `node_id`.
    pub fn get_inode(&self, node_id: &NodeId) -> (r: &NodeData)
        requires
            self@.valid_node(*node_id),
        ensures
            r@ == self@.nodes[node_id.index as int],
    {
        &self.nodes[node_id.index]
    }

    /// Return the link record of `link_id`.
    pub fn get_link(&self, link_id: &LinkId) -> (r: Link)
        requires
            self@.valid_link(*link_id),
        ensures
            r == self@.link_of(*link_id),
    {
        self.links[link_id.index]
    }
}

/// Growing by appending is transitive.
pub proof fn lemma_extends_trans(a: StorageView, b: StorageView, c: StorageView)
    requires
        b.extends(a),
        c.extends(b),
    ensures
        c.extends(a),
{
    assert forall|i: int| 0 <= i < a.nodes.len() implies match #[trigger] a.nodes[i] {
        NodeView::File { content } => c.nodes[i] == NodeView::File { content },
        NodeView::Dir { entries } => match c.nodes[i] {
            NodeView::Dir { entries: new_entries } => entries.is_prefix_of(new_entries),
            NodeView::File { .. } => false,
        },
    } by {
        match a.nodes[i] {
            NodeView::File { content } => {
                assert(b.nodes[i] == NodeView::File { content });
            },
            NodeView::Dir { entries } => {
                match b.nodes[i] {
                    NodeView::Dir { entries: eb } => {
                        assert(entries.is_prefix_of(eb));
                        match c.nodes[i] {
                            NodeView::Dir { entries: ec } => {
                                assert(eb.is_prefix_of(ec));
                                assert(entries.is_prefix_of(ec));
                            },
                            NodeView::File { .. } => {
                                assert(false);
                            },
                        }
                    },
                    NodeView::File { .. } => {
                        assert(false);
                    },
                }
            },
        }
    }
}

/// Whether some entry in the list carries exactly this name.
pub open spec fn contains_name(entries: Seq<EntryView>, name: Seq<u8>) -> bool {
    exists|k: int| 0 <= k < entries.len() && entries[k].name == name
}

/// A path that is a single valid name splits into that one component.
pub proof fn lemma_split_single(p: Seq<u8>)
    requires
        p.len() > 0,
        !p.contains(SLASH),
    ensures
        split_bytes(p) =~~= seq![p],
    decreases p.len(),
{
    assert(p.last() != SLASH);
    if p.len() == 1 {
        assert(split_bytes(p.drop_last()) =~~= seq![Seq::<u8>::empty()]);
        assert(split_bytes(p) =~~= seq![Seq::<u8>::empty().push(p.last())]);
        assert(Seq::<u8>::empty().push(p.last()) =~= p);
    } else {
        assert forall|i: int| 0 <= i < p.drop_last().len() implies p.drop_last()[i] != SLASH by {
            assert(p[i] != SLASH);
        }
        assert(!p.drop_last().contains(SLASH));
        lemma_split_single(p.drop_last());
        assert(split_bytes(p) =~~= seq![p.drop_last().push(p.last())]);
        assert(p.drop_last().push(p.last()) =~= p);
    }
}

/// Splitting distributes over a separator: the components of
/// `p / q` are the components of `p` followed by those of `q`.
pub proof fn lemma_split_concat(p: Seq<u8>, q: Seq<u8>)
    ensures
        split_bytes(p + seq![SLASH] + q) == split_bytes(p) + split_bytes(q),
    decreases q.len(),
{
    lemma_split_bytes_len(p);
    if q.len() == 0 {
        assert(p + seq![SLASH] + q =~= p + seq![SLASH]);
        assert((p + seq![SLASH]).drop_last() =~= p);
        assert((p + seq![SLASH]).last() == SLASH);
        assert(split_bytes(p + seq![SLASH]) == split_bytes(p).push(Seq::empty()));
        assert(split_bytes(p).push(Seq::<u8>::empty()) =~~= split_bytes(p) + seq![
            Seq::<u8>::empty(),
        ]);
    } else {
        lemma_split_concat(p, q.drop_last());
        lemma_split_bytes_len(q.drop_last());
        let whole = p + seq![SLASH] + q;
        assert(whole.drop_last() =~= p + seq![SLASH] + q.drop_last());
        assert(whole.last() == q.last());
        let cs1 = split_bytes(p);
        let cs2 = split_bytes(q.drop_last());
        assert(split_bytes(whole) == split_push(cs1 + cs2, q.last()));
        if q.last() == SLASH {
            assert((cs1 + cs2).push(Seq::empty()) =~~= cs1 + cs2.push(Seq::empty()));
        } else {
            assert((cs1 + cs2).last() == cs2.last());
            assert((cs1 + cs2).update(
                (cs1 + cs2).len() - 1,
                cs2.last().push(q.last()),
            ) =~~= cs1 + cs2.update(cs2.len() - 1, cs2.last().push(q.last())));
        }
    }
}

/// Growing by appending is reflexive.
pub proof fn lemma_extends_refl(s: StorageView)
    ensures
        s.extends(s),
{
    assert forall|i: int| 0 <= i < s.nodes.len() implies match #[trigger] s.nodes[i] {
        NodeView::File { content } => s.nodes[i] == NodeView::File { content },
        NodeView::Dir { entries } => match s.nodes[i] {
            NodeView::Dir { entries: new_entries } => entries.is_prefix_of(new_entries),
            NodeView::File { .. } => false,
        },
    } by {
        match s.nodes[i] {
            NodeView::Dir { entries } => {
                assert(entries =~= entries.subrange(0, entries.len() as int));
            },
            NodeView::File { .. } => {},
        }
    }
}

/// A successful lookup returns the link of one of the entries.
pub proof fn lemma_entry_lookup_found(entries: Seq<EntryView>, name: Seq<u8>)
    requires
        entry_lookup(entries, name) is Some,
    ensures
        exists|k: int|
            0 <= k < entries.len() && (#[trigger] entries[k]).link_id == entry_lookup(
                entries,
                name,
            )->Some_0,
    decreases entries.len(),
{
    if entries.len() > 0 {
        if entries[0].name == name {
            assert(entries[0].link_id == entry_lookup(entries, name)->Some_0);
        } else {
            lemma_entry_lookup_found(entries.drop_first(), name);
            let k = choose|k: int|
                0 <= k < entries.drop_first().len() && (#[trigger] entries.drop_first()[k]).link_id
                    == entry_lookup(entries.drop_first(), name)->Some_0;
            assert(entries[k + 1].link_id == entry_lookup(entries, name)->Some_0);
        }
    }
}

/// A lookup that found an entry still finds the same entry after more
/// entries are appended: the scan takes the first match, and a prefix is
/// unchanged.
pub proof fn lemma_entry_lookup_prefix(e1: Seq<EntryView>, e2: Seq<EntryView>, name: Seq<u8>)
    requires
        e1.is_prefix_of(e2),
        entry_lookup(e1, name) is Some,
    ensures
        entry_lookup(e2, name) == entry_lookup(e1, name),
    decreases e1.len(),
{
    assert(e1.len() > 0);
    assert(e2[0] == e2.subrange(0, e1.len() as int)[0]);
    assert(e1[0] == e2[0]);
    if e1[0].name == name {
        assert(e2.len() > 0);
    } else {
        assert(e1.drop_first().is_prefix_of(e2.drop_first())) by {
            assert(e1.drop_first() =~= e2.drop_first().subrange(0, e1.drop_first().len() as int))
                by {
                assert forall|i: int| 0 <= i < e1.len() - 1 implies e1.drop_first()[i]
                    == e2.drop_first()[i] by {
                    assert(e1[i + 1] == e2.subrange(0, e1.len() as int)[i + 1]);
                }
            }
        }
        lemma_entry_lookup_prefix(e1.drop_first(), e2.drop_first(), name);
    }
}

/// A lookup that misses means no entry carries the name.
pub proof fn lemma_entry_lookup_none(entries: Seq<EntryView>, name: Seq<u8>)
    requires
        entry_lookup(entries, name) is None,
    ensures
        !contains_name(entries, name),
    decreases entries.len(),
{
    if entries.len() > 0 {
        assert(entries[0].name != name);
        lemma_entry_lookup_none(entries.drop_first(), name);
        if contains_name(entries, name) {
            let k = choose|k: int| 0 <= k < entries.len() && entries[k].name == name;
            assert(k > 0);
            assert(entries.drop_first()[k - 1].name == name);
        }
    }
}

/// A name appended to a directory that did not contain it is found by a
/// lookup in any later extension of that directory's entry list.
pub proof fn lemma_entry_lookup_fresh_then_prefix(
    e1: Seq<EntryView>,
    e2: Seq<EntryView>,
    name: Seq<u8>,
    l: LinkId,
)
    requires
        !contains_name(e1, name),
        e1.push(EntryView { name, link_id: l }).is_prefix_of(e2),
    ensures
        entry_lookup(e2, name) == Some(l),
{
    lemma_entry_lookup_push_fresh(e1, name, l);
    lemma_entry_lookup_prefix(e1.push(EntryView { name, link_id: l }), e2, name);
}

/// Resolution over concatenated component lists composes: the second leg
/// starts from wherever the first leg ended.
pub proof fn lemma_resolve_components_concat(
    s: StorageView,
    node: NodeId,
    link: LinkId,
    a: Seq<Seq<u8>>,
    b: Seq<Seq<u8>>,
)
    ensures
        resolve_components(s, node, link, a + b) == match resolve_components(s, node, link, a) {
            Ok((n, l)) => resolve_components(s, n, l, b),
            Err(e) => Err(e),
        },
    decreases a.len(),
{
    if a.len() == 0 {
        assert(a + b =~= b);
    } else {
        let whole = a + b;
        assert(whole[0] == a[0]);
        assert(whole.drop_first() =~= a.drop_first() + b);
        let c = a[0];
        if c.len() == 0 || c == seq![DOT] {
            lemma_resolve_components_concat(s, node, link, a.drop_first(), b);
        } else if c == seq![DOT, DOT] {
            match s.link_of(link).parent {
                None => {
                    lemma_resolve_components_concat(s, node, link, a.drop_first(), b);
                },
                Some(p) => {
                    lemma_resolve_components_concat(s, s.link_of(p).node, p, a.drop_first(), b);
                },
            }
        } else if !s.is_dir(node) {
        } else {
            match entry_lookup(s.entries_of(node), c) {
                None => {},
                Some(l) => {
                    lemma_resolve_components_concat(s, s.link_of(l).node, l, a.drop_first(), b);
                },
            }
        }
    }
}

/// Looking up a freshly appended name finds the appended link, provided
/// the name was not already present in the directory.
pub proof fn lemma_entry_lookup_push_fresh(entries: Seq<EntryView>, name: Seq<u8>, l: LinkId)
    requires
        !contains_name(entries, name),
    ensures
        entry_lookup(entries.push(EntryView { name, link_id: l }), name) == Some(l),
    decreases entries.len(),
{
    let pushed = entries.push(EntryView { name, link_id: l });
    if entries.len() == 0 {
        assert(pushed[0] == EntryView { name, link_id: l });
    } else {
        assert(entries[0].name != name);
        assert(pushed[0] == entries[0]);
        assert(!contains_name(entries.drop_first(), name)) by {
            if contains_name(entries.drop_first(), name) {
                let k = choose|k: int|
                    0 <= k < entries.drop_first().len() && entries.drop_first()[k].name == name;
                assert(entries[k + 1].name == name);
            }
        }
        lemma_entry_lookup_push_fresh(entries.drop_first(), name, l);
        assert(pushed.drop_first() =~= entries.drop_first().push(EntryView { name, link_id: l }));
    }
}

/// Resolution ignores a final empty component, so a trailing slash does
/// not change the result (in particular it does not require the target to
/// be a directory).
pub proof fn lemma_resolve_skip_final_empty(
    s: StorageView,
    node: NodeId,
    link: LinkId,
    comps: Seq<Seq<u8>>,
)
    ensures
        resolve_components(s, node, link, comps.push(Seq::empty())) == resolve_components(
            s,
            node,
            link,
            comps,
        ),
    decreases comps.len(),
{
    let pushed = comps.push(Seq::empty());
    if comps.len() == 0 {
        assert(pushed[0] == Seq::<u8>::empty());
        assert(pushed.drop_first() =~= comps);
    } else {
        assert(pushed[0] == comps[0]);
        assert(pushed.drop_first() =~= comps.drop_first().push(Seq::empty()));
        lemma_resolve_skip_final_empty(s, node, link, comps.drop_first());
        let c = comps[0];
        if c.len() == 0 || c == seq![DOT] {
        } else if c == seq![DOT, DOT] {
            match s.link_of(link).parent {
                None => {},
                Some(p) => {
                    lemma_resolve_skip_final_empty(s, s.link_of(p).node, p, comps.drop_first());
                },
            }
        } else if !s.is_dir(node) {
        } else {
            match entry_lookup(s.entries_of(node), c) {
                None => {},
                Some(l) => {
                    lemma_resolve_skip_final_empty(s, s.link_of(l).node, l, comps.drop_first());
                },
            }
        }
    }
}

/// A trailing slash on a non-empty path never changes what it resolves
/// to: in particular a path ending in `name/` still resolves to the file
/// `name` names.
pub proof fn lemma_trailing_slash(s: StorageView, base: NodeId, base_link: LinkId, path: Seq<u8>)
    requires
        path.len() > 0,
    ensures
        resolve_spec(s, base, base_link, path + seq![SLASH]) == resolve_spec(
            s,
            base,
            base_link,
            path,
        ),
{
    let ext = path + seq![SLASH];
    assert(ext[0] == path[0]);
    assert(ext.drop_last() =~= path);
    assert(ext.last() == SLASH);
    assert(split_bytes(ext) == split_bytes(path).push(Seq::empty()));
    if path[0] == SLASH {
        let rl = root_link_of(s, base_link);
        lemma_resolve_skip_final_empty(s, s.link_of(rl).node, rl, split_bytes(path));
    } else {
        lemma_resolve_skip_final_empty(s, base, base_link, split_bytes(path));
    }
}

/// `..` at a preopen root stays at the root: resolving `..` against a
/// root cursor returns that same cursor, with no escape upward.
pub proof fn lemma_root_dotdot(s: StorageView, root: NodeId, root_link: LinkId)
    requires
        s.valid_link(root_link),
        s.link_of(root_link).parent is None,
    ensures
        resolve_spec(s, root, root_link, seq![DOT, DOT]) == Ok::<_, u16>((root, root_link)),
{
    let p = seq![DOT, DOT];
    assert(p[0] != SLASH);
    assert(!p.contains(SLASH)) by {
        if p.contains(SLASH) {
            let k = choose|k: int| 0 <= k < p.len() && p[k] == SLASH;
            assert(k == 0 || k == 1);
        }
    }
    lemma_split_single(p);
    let comps = split_bytes(p);
    assert(comps == seq![p]);
    assert(comps[0] == p);
    assert(comps.drop_first() =~= Seq::<Seq<u8>>::empty());
    assert(resolve_components(s, root, root_link, comps.drop_first()) == Ok::<_, u16>(
        (root, root_link),
    ));
}

/// After a fresh child is attached under `parent` with a name the
/// directory did not contain, resolving that single name from `parent`
/// yields exactly the new `(node, link)` pair.
pub proof fn lemma_fresh_child_resolves(
    s1: StorageView,
    s2: StorageView,
    parent: (NodeId, LinkId),
    name: Seq<u8>,
    child: (NodeId, LinkId),
    node: NodeView,
)
    requires
        s1.wf(),
        s1.valid_node(parent.0),
        s1.valid_link(parent.1),
        s1.is_dir(parent.0),
        valid_name(name),
        !contains_name(s1.entries_of(parent.0), name),
        child.0.index == s1.nodes.len(),
        child.1.index == s1.links.len(),
        s2.nodes == s1.nodes.update(
            parent.0.index as int,
            NodeView::Dir {
                entries: s1.entries_of(parent.0).push(EntryView { name, link_id: child.1 }),
            },
        ).push(node),
        s2.links == s1.links.push(Link { parent: Some(parent.1), node: child.0 }),
    ensures
        resolve_spec(s2, parent.0, parent.1, name) == Ok::<_, u16>(child),
{
    assert(name[0] != SLASH);
    lemma_split_single(name);
    let comps = split_bytes(name);
    assert(comps == seq![name]);
    assert(comps[0] == name);
    assert(comps.drop_first() =~= Seq::<Seq<u8>>::empty());
    assert(s2.is_dir(parent.0));
    let new_entries = s1.entries_of(parent.0).push(EntryView { name, link_id: child.1 });
    assert(s2.entries_of(parent.0) == new_entries);
    lemma_entry_lookup_push_fresh(s1.entries_of(parent.0), name, child.1);
    assert(entry_lookup(s2.entries_of(parent.0), name) == Some(child.1));
    assert(s2.link_of(child.1) == Link { parent: Some(parent.1), node: child.0 });
    assert(resolve_components(s2, s2.link_of(child.1).node, child.1, comps.drop_first())
        == Ok::<_, u16>((child.0, child.1)));
    assert(resolve_components(s2, parent.0, parent.1, comps) == Ok::<_, u16>((child.0, child.1)));
    assert((child.0, child.1) == child);
}

/// The law of `new_file`: the pair it returns is found again by resolving
/// the file's name against the parent cursor, and the new inode holds
/// exactly the given content. `s1` and `s2` are the storage before and
/// after the call, related as `new_file` ensures; the name must be valid
/// and not already present in the parent directory.
pub proof fn lemma_new_file_resolves(
    s1: StorageView,
    s2: StorageView,
    parent: (NodeId, LinkId),
    name: Seq<u8>,
    content: Seq<u8>,
    child: (NodeId, LinkId),
)
    requires
        s1.wf(),
        s1.valid_node(parent.0),
        s1.valid_link(parent.1),
        s1.is_dir(parent.0),
        valid_name(name),
        !contains_name(s1.entries_of(parent.0), name),
        child.0.index == s1.nodes.len(),
        child.1.index == s1.links.len(),
        s2.nodes == s1.nodes.update(
            parent.0.index as int,
            NodeView::Dir {
                entries: s1.entries_of(parent.0).push(EntryView { name, link_id: child.1 }),
            },
        ).push(NodeView::File { content }),
        s2.links == s1.links.push(Link { parent: Some(parent.1), node: child.0 }),
    ensures
        resolve_spec(s2, parent.0, parent.1, name) == Ok::<_, u16>(child),
        s2.content_of(child.0) == content,
{
    lemma_fresh_child_resolves(s1, s2, parent, name, child, NodeView::File { content });
}

/// The law of `new_dir`: the pair it returns is found again by resolving
/// `./name` (leading `.`, separator and name all tolerated) against the
/// parent cursor.
pub proof fn lemma_new_dir_resolves(
    s1: StorageView,
    s2: StorageView,
    parent: (NodeId, LinkId),
    name: Seq<u8>,
    child: (NodeId, LinkId),
)
    requires
        s1.wf(),
        s1.valid_node(parent.0),
        s1.valid_link(parent.1),
        s1.is_dir(parent.0),
        valid_name(name),
        !contains_name(s1.entries_of(parent.0), name),
        child.0.index == s1.nodes.len(),
        child.1.index == s1.links.len(),
        s2.nodes == s1.nodes.update(
            parent.0.index as int,
            NodeView::Dir {
                entries: s1.entries_of(parent.0).push(EntryView { name, link_id: child.1 }),
            },
        ).push(NodeView::Dir { entries: Seq::empty() }),
        s2.links == s1.links.push(Link { parent: Some(parent.1), node: child.0 }),
    ensures
        resolve_spec(s2, parent.0, parent.1, name) == Ok::<_, u16>(child),
        resolve_spec(s2, parent.0, parent.1, seq![DOT, SLASH] + name) == Ok::<_, u16>(child),
{
    lemma_fresh_child_resolves(
        s1,
        s2,
        parent,
        name,
        child,
        NodeView::Dir { entries: Seq::empty() },
    );
    let dot = seq![DOT];
    let dotted = seq![DOT, SLASH] + name;
    assert(dot + seq![SLASH] + name =~= dotted);
    lemma_split_concat(dot, name);
    lemma_split_single(name);
    assert(!dot.contains(SLASH)) by {
        if dot.contains(SLASH) {
            let k = choose|k: int| 0 <= k < dot.len() && dot[k] == SLASH;
            assert(k == 0);
        }
    }
    lemma_split_single(dot);
    let comps = split_bytes(dotted);
    assert(comps == seq![dot] + seq![name]);
    assert(comps.len() == 2);
    assert(comps[0] == dot);
    assert(comps[1] == name);
    assert(dotted[0] == DOT);
    assert(comps.drop_first() =~= seq![name]);
    assert(resolve_components(s2, parent.0, parent.1, comps) == resolve_components(
        s2,
        parent.0,
        parent.1,
        seq![name],
    ));
    assert(resolve_spec(s2, parent.0, parent.1, name) == resolve_components(
        s2,
        parent.0,
        parent.1,
        split_bytes(name),
    )) by {
        assert(name[0] != SLASH);
    }
}

/// Appending one fresh inode, one link to it under a valid parent, and one
/// entry in the parent directory preserves well-formedness and only grows
/// the storage.
pub proof fn lemma_wf_after_child(
    old: StorageView,
    new: StorageView,
    parent: (NodeId, LinkId),
    node: NodeView,
    node_id: NodeId,
    link_id: LinkId,
    name: Seq<u8>,
)
    requires
        old.wf(),
        old.valid_node(parent.0),
        old.valid_link(parent.1),
        old.is_dir(parent.0),
        node_id.index == old.nodes.len(),
        link_id.index == old.links.len(),
        node matches NodeView::Dir { entries } ==> entries.len() == 0,
        new.nodes == old.nodes.push(node).update(
            parent.0.index as int,
            NodeView::Dir {
                entries: old.entries_of(parent.0).push(EntryView { name, link_id }),
            },
        ),
        new.links == old.links.push(Link { parent: Some(parent.1), node: node_id }),
    ensures
        new.wf(),
        new.extends(old),
        new.nodes == old.nodes.update(
            parent.0.index as int,
            NodeView::Dir {
                entries: old.entries_of(parent.0).push(EntryView { name, link_id }),
            },
        ).push(node),
{
    assert(new.nodes =~~= old.nodes.update(
        parent.0.index as int,
        NodeView::Dir { entries: old.entries_of(parent.0).push(EntryView { name, link_id }) },
    ).push(node));
    assert forall|i: int| 0 <= i < new.links.len() implies {
        &&& (#[trigger] new.links[i]).node.index < new.nodes.len()
        &&& match new.links[i].parent {
            Some(p) => p.index < i,
            None => true,
        }
    } by {
        if i < old.links.len() {
            assert(new.links[i] == old.links[i]);
        }
    }
    assert forall|i: int| 0 <= i < new.nodes.len() implies match #[trigger] new.nodes[i] {
        NodeView::Dir { entries } => forall|j: int|
            0 <= j < entries.len() ==> (#[trigger] entries[j]).link_id.index < new.links.len(),
        NodeView::File { .. } => true,
    } by {
        if i == parent.0.index as int {
            let entries = new.nodes[i]->Dir_entries;
            assert forall|j: int| 0 <= j < entries.len() implies (#[trigger] entries[j]).link_id.index
                < new.links.len() by {
                if j < entries.len() - 1 {
                    assert(old.entries_of(parent.0)[j].link_id.index < old.links.len());
                }
            }
        } else if i < old.nodes.len() {
            assert(new.nodes[i] == old.nodes[i]);
            match old.nodes[i] {
                NodeView::Dir { entries } => {
                    assert forall|j: int| 0 <= j < entries.len() implies (#[trigger] entries[j]).link_id.index
                        < new.links.len() by {
                        assert(entries[j].link_id.index < old.links.len());
                    }
                },
                NodeView::File { .. } => {},
            }
        }
    }
    assert forall|i: int| 0 <= i < old.nodes.len() implies match #[trigger] old.nodes[i] {
        NodeView::File { content } => new.nodes[i] == NodeView::File { content },
        NodeView::Dir { entries } => match new.nodes[i] {
            NodeView::Dir { entries: new_entries } => entries.is_prefix_of(new_entries),
            NodeView::File { .. } => false,
        },
    } by {
        if i == parent.0.index as int {
            let old_entries = old.entries_of(parent.0);
            assert(old.nodes[i] == NodeView::Dir { entries: old_entries });
            assert(old_entries.is_prefix_of(old_entries.push(EntryView { name, link_id })));
        } else {
            assert(new.nodes[i] == old.nodes[i]);
            match old.nodes[i] {
                NodeView::Dir { entries } => {
                    assert(entries.is_prefix_of(entries));
                },
                NodeView::File { .. } => {},
            }
        }
    }
}

/// Appending one fresh inode and one link to it (with any already-valid
/// parent) preserves well-formedness.
proof fn lemma_wf_after_append(old: StorageView, new: StorageView, node: NodeView, link: Link)
    requires
        old.wf(),
        new.nodes == old.nodes.push(node),
        new.links == old.links.push(link),
        link.node.index == old.nodes.len(),
        match link.parent {
            Some(p) => p.index < old.links.len(),
            None => true,
        },
        match node {
            NodeView::Dir { entries } => entries.len() == 0,
            NodeView::File { .. } => true,
        },
    ensures
        new.wf(),
{
    assert forall|i: int| 0 <= i < new.links.len() implies {
        &&& (#[trigger] new.links[i]).node.index < new.nodes.len()
        &&& match new.links[i].parent {
            Some(p) => p.index < i,
            None => true,
        }
    } by {
        if i < old.links.len() {
            assert(new.links[i] == old.links[i]);
        }
    }
    assert forall|i: int| 0 <= i < new.nodes.len() implies match #[trigger] new.nodes[i] {
        NodeView::Dir { entries } => forall|j: int|
            0 <= j < entries.len() ==> (#[trigger] entries[j]).link_id.index < new.links.len(),
        NodeView::File { .. } => true,
    } by {
        if i < old.nodes.len() {
            assert(new.nodes[i] == old.nodes[i]);
            match old.nodes[i] {
                NodeView::Dir { entries } => {
                    assert forall|j: int| 0 <= j < entries.len() implies (#[trigger] entries[j]).link_id.index
                        < new.links.len() by {
                        assert(entries[j].link_id.index < old.links.len());
                    }
                },
                NodeView::File { .. } => {},
            }
        }
    }
}

} // verus!
