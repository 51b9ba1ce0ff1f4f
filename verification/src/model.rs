//! The data that a scan publishes and the interface shows: tree ids, rows of
//! a directory and the view snapshot they come in.

use vstd::prelude::*;

verus! {

/// Id of an entry in the scanned tree.
#[derive(Debug, Clone, Copy, PartialEq, Eq, Hash, Structural)]
pub struct NodeId {
    pub raw: u32,
}

impl NodeId {
    /// The id with the given number.
    pub fn from_raw(raw: u32) -> (id: NodeId)
        ensures
            id.raw == raw,
    {
        NodeId { raw }
    }
}

/// Id of a directory in the scanned tree.
#[derive(Debug, Clone, Copy, PartialEq, Eq, Hash, Structural)]
pub struct DirId {
    pub raw: u32,
}

impl DirId {
    /// The id with the given number.
    pub fn from_raw(raw: u32) -> (id: DirId)
        ensures
            id.raw == raw,
    {
        DirId { raw }
    }
}

/// How far the scan of a row's subtree has come.
#[derive(Debug, Clone, Copy, PartialEq, Eq, Structural)]
pub enum RowState {
    /// A directory whose subtree is still being read.
    Scanning,
    /// A directory whose subtree was read.
    Complete,
    /// A directory that could not be read.
    Error,
    /// Anything that is not a directory.
    File,
}

/// One entry of the viewed directory.
#[derive(Debug)]
pub struct Row {
    /// Raw name bytes.
    pub name: Vec<u8>,
    pub node: NodeId,
    /// The directory to open, absent for files and excluded mount points.
    pub dir: Option<DirId>,
    pub is_dir: bool,
    pub apparent: u64,
    pub disk: u64,
    pub items: u64,
    pub errors: u64,
    pub state: RowState,
    pub mtime: i64,
}

/// Subtree totals of the viewed directory.
#[derive(Debug, Clone, Copy, PartialEq, Eq, Structural)]
pub struct DirTotals {
    pub apparent: u64,
    pub disk: u64,
    pub items: u64,
    pub errors: u64,
}

impl Default for DirTotals {
    fn default() -> (t: DirTotals)
        ensures
            t.apparent == 0,
            t.disk == 0,
            t.items == 0,
            t.errors == 0,
    {
        DirTotals { apparent: 0, disk: 0, items: 0, errors: 0 }
    }
}

/// Progress of the whole scan.
#[derive(Debug, Clone, Copy, PartialEq, Eq, Structural)]
pub struct ScanStats {
    pub entries: u64,
    pub dirs: u64,
    pub errors: u64,
    pub disk_bytes: u64,
    /// Time since the scan started, in nanoseconds.
    pub elapsed_nanos: u128,
    /// Whether the whole tree has been read.
    pub root_complete: bool,
}

/// What the interface shows of one directory at one moment.
#[derive(Debug)]
pub struct ViewSnapshot {
    /// Counts publications: rows only change together with it.
    pub generation: u64,
    pub dir: DirId,
    pub parent: Option<DirId>,
    /// Raw path bytes of the directory.
    pub path: Vec<u8>,
    pub rows: Vec<Row>,
    pub totals: DirTotals,
    pub stats: ScanStats,
    pub hardlink_inodes: u64,
    /// Whether the directory publishes on the slower cadence.
    pub degraded: bool,
}

} // verus!
