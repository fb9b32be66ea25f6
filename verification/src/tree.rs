use vstd::prelude::*;

verus! {

/// What a scan of one path found on disk, before anything is summed.
///
/// A directory holds the entries that could be listed; entries that could
/// not be read at all are left out of `children`.
#[derive(Debug)]
pub enum FsNode {
    /// The path's metadata could not be read, or it is a directory that could
    /// not be listed, or it is neither a file nor a directory.
    Unreadable,
    /// A symbolic link; it is never followed.
    Symlink,
    /// A regular file with its length in bytes and its modification time in
    /// nanoseconds after the Unix epoch (0 when unknown or earlier).
    File { len: u64, modified: u128 },
    /// A directory and the entries listed in it.
    Dir { children: Vec<FsNode> },
}

/// Bytes held by the regular files of a tree, counted exactly.
pub open spec fn total_bytes(n: FsNode) -> nat
    decreases n,
{
    match n {
        FsNode::File { len, .. } => len as nat,
        FsNode::Dir { children } => sum_bytes(children@),
        _ => 0,
    }
}

/// Bytes held by the regular files of a sequence of trees.
pub open spec fn sum_bytes(s: Seq<FsNode>) -> nat
    decreases s,
{
    if s.len() == 0 {
        0
    } else {
        sum_bytes(s.drop_last()) + total_bytes(s.last())
    }
}

/// The newest modification time among the regular files of a tree, or 0.
pub open spec fn newest_mtime(n: FsNode) -> nat
    decreases n,
{
    match n {
        FsNode::File { modified, .. } => modified as nat,
        FsNode::Dir { children } => newest_in(children@),
        _ => 0,
    }
}

/// The newest modification time among the regular files of a sequence of trees, or 0.
pub open spec fn newest_in(s: Seq<FsNode>) -> nat
    decreases s,
{
    if s.len() == 0 {
        0
    } else {
        max_nat(newest_in(s.drop_last()), newest_mtime(s.last()))
    }
}

pub open spec fn max_nat(a: nat, b: nat) -> nat {
    if a < b { b } else { a }
}

/// A byte count as a `u64` holds it: exact up to `u64::MAX`, saturated above.
pub open spec fn clamp_u64(n: nat) -> u64 {
    if n < u64::MAX { n as u64 } else { u64::MAX }
}

} // verus!
