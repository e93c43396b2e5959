//! The files that a commit changes, and how git's status flags are read.

use vstd::prelude::*;

verus! {

/// Status flag of git: the entry is new in the index.
pub const STATUS_INDEX_NEW: u32 = 0x0001;

/// Status flag of git: the entry is modified in the index.
pub const STATUS_INDEX_MODIFIED: u32 = 0x0002;

/// Status flag of git: the entry is deleted from the index.
pub const STATUS_INDEX_DELETED: u32 = 0x0004;

/// Status flag of git: the entry is renamed in the index.
pub const STATUS_INDEX_RENAMED: u32 = 0x0008;

/// Status flag of git: the entry changed its type in the index.
pub const STATUS_INDEX_TYPECHANGE: u32 = 0x0010;

/// Status flag of git: the entry is new in the working tree.
pub const STATUS_WT_NEW: u32 = 0x0080;

/// Status flag of git: the entry is modified in the working tree.
pub const STATUS_WT_MODIFIED: u32 = 0x0100;

/// Status flag of git: the entry is deleted from the working tree.
pub const STATUS_WT_DELETED: u32 = 0x0200;

/// Status flag of git: the entry changed its type in the working tree.
pub const STATUS_WT_TYPECHANGE: u32 = 0x0400;

/// Status flag of git: the entry is renamed in the working tree.
pub const STATUS_WT_RENAMED: u32 = 0x0800;

/// How a file differs from the last commit.
#[derive(Clone, Copy, Debug, PartialEq, Eq, Structural)]
pub enum ChangeKind {
    Added,
    Modified,
    Deleted,
    Renamed,
    Unmodified,
}

/// Whether `bits` has one of the flags of `mask` set.
pub open spec fn has_flag(bits: u32, mask: u32) -> bool {
    bits & mask != 0
}

/// The kind of change that a set of git status flags stands for. A deletion,
/// in the index or in the working tree, wins over everything else: the file
/// is gone, whatever else is recorded of it. Then come renames, additions and
/// modifications, in that order.
pub open spec fn kind_of_status(bits: u32) -> ChangeKind {
    if has_flag(bits, STATUS_INDEX_DELETED) || has_flag(bits, STATUS_WT_DELETED) {
        ChangeKind::Deleted
    } else if has_flag(bits, STATUS_INDEX_RENAMED) || has_flag(bits, STATUS_WT_RENAMED) {
        ChangeKind::Renamed
    } else if has_flag(bits, STATUS_INDEX_NEW) || has_flag(bits, STATUS_WT_NEW) {
        ChangeKind::Added
    } else if has_flag(bits, STATUS_INDEX_MODIFIED) || has_flag(bits, STATUS_WT_MODIFIED)
        || has_flag(bits, STATUS_INDEX_TYPECHANGE) || has_flag(bits, STATUS_WT_TYPECHANGE) {
        ChangeKind::Modified
    } else {
        ChangeKind::Unmodified
    }
}

impl ChangeKind {
    /// Reads the kind of change off the status flags that git reports for an
    /// entry.
    pub fn from_status_bits(bits: u32) -> (kind: ChangeKind)
        ensures
            kind == kind_of_status(bits),
    {
        if bits & STATUS_INDEX_DELETED != 0 || bits & STATUS_WT_DELETED != 0 {
            ChangeKind::Deleted
        } else if bits & STATUS_INDEX_RENAMED != 0 || bits & STATUS_WT_RENAMED != 0 {
            ChangeKind::Renamed
        } else if bits & STATUS_INDEX_NEW != 0 || bits & STATUS_WT_NEW != 0 {
            ChangeKind::Added
        } else if bits & STATUS_INDEX_MODIFIED != 0 || bits & STATUS_WT_MODIFIED != 0 || bits
            & STATUS_INDEX_TYPECHANGE != 0 || bits & STATUS_WT_TYPECHANGE != 0 {
            ChangeKind::Modified
        } else {
            ChangeKind::Unmodified
        }
    }

    /// Whether the file is gone from the index or from the working tree.
    pub fn is_deleted(&self) -> (deleted: bool)
        ensures
            deleted == (*self == ChangeKind::Deleted),
    {
        match self {
            ChangeKind::Deleted => true,
            _ => false,
        }
    }
}

/// The view of a changed file: its path and the kind of its change.
pub struct FileModel {
    pub path: Seq<char>,
    pub kind: ChangeKind,
}

/// One entry of the snapshot of changed files that a run works on.
#[derive(Clone, Debug, PartialEq, Eq)]
pub struct ChangedFile {
    pub path: String,
    pub kind: ChangeKind,
}

impl View for ChangedFile {
    type V = FileModel;

    open spec fn view(&self) -> FileModel {
        FileModel { path: self.path@, kind: self.kind }
    }
}

impl DeepView for ChangedFile {
    type V = FileModel;

    open spec fn deep_view(&self) -> FileModel {
        self@
    }
}

impl ChangedFile {
    /// A changed file with the given path and kind of change.
    pub fn new(path: String, kind: ChangeKind) -> (file: ChangedFile)
        ensures
            file@ == (FileModel { path: path@, kind }),
    {
        ChangedFile { path, kind }
    }
}

/// Whether a changed file may be handed to a command at all: a deleted file
/// no longer exists on disk and never is.
pub open spec fn eligible(file: FileModel) -> bool {
    file.kind != ChangeKind::Deleted
}

} // verus!
