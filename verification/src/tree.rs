use vstd::prelude::*;

verus! {

/// What a directory entry is, as reported without following symbolic links:
/// a symlink is classified `Symlink`, never dereferenced into `File` or
/// `Directory`.
#[derive(Clone, Copy, Debug, PartialEq, Eq, Structural)]
pub enum EntryKind {
    Directory,
    File,
    Symlink,
}

/// One named entry of a directory listing.
pub struct FsEntry {
    /// The entry's own name (one path segment, not a full path).
    pub name: String,
    /// What the entry is, with the children of a subdirectory.
    pub node: FsNode,
}

/// A snapshot of one filesystem object: a directory carries its immediate
/// children in listing order; files and symlinks are leaves.
pub enum FsNode {
    Directory(Vec<FsEntry>),
    File,
    Symlink,
}

impl FsNode {
    /// The classification of this object.
    pub open spec fn kind(self) -> EntryKind {
        match self {
            FsNode::Directory(_) => EntryKind::Directory,
            FsNode::File => EntryKind::File,
            FsNode::Symlink => EntryKind::Symlink,
        }
    }
}

/// Number of filesystem objects in the subtree of one entry: the entry
/// itself plus, for a directory, everything below it.
pub open spec fn count_entry(e: FsEntry) -> nat
    decreases e, 0int, 0int,
{
    match e.node {
        FsNode::Directory(children) => 1 + count_from(children, 0),
        _ => 1,
    }
}

/// Number of filesystem objects in the subtrees of `entries[i..]`.
pub open spec fn count_from(entries: Vec<FsEntry>, i: int) -> nat
    decreases entries, entries.len() - i, 1int,
{
    if i < 0 || i >= entries.len() {
        0
    } else {
        count_entry(entries[i]) + count_from(entries, i + 1)
    }
}

/// The entry `e` leads along the segment path `segs` to a filesystem object
/// of kind `kind`: its name is the first segment, and the rest of the path,
/// if any, is reachable inside it — which requires it to be a directory.
pub open spec fn entry_leads_to(e: FsEntry, segs: Seq<Seq<char>>, kind: EntryKind) -> bool
    decreases e, 0int,
{
    &&& segs.len() >= 1
    &&& e.name@ == segs[0]
    &&& if segs.len() == 1 {
        e.node.kind() == kind
    } else {
        e.node is Directory && path_reachable(e.node->Directory_0, segs.drop_first(), kind)
    }
}

/// The segment path `segs` names a real object of kind `kind` under a
/// directory holding `entries`, following directory entries only.
pub open spec fn path_reachable(entries: Vec<FsEntry>, segs: Seq<Seq<char>>, kind: EntryKind) -> bool
    decreases entries, 1int,
{
    exists|j: int| 0 <= j < entries.len() && entry_leads_to(#[trigger] entries[j], segs, kind)
}

} // verus!
