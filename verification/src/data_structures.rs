//! The data model of a tree comparison.
//!
//! A caller enumerates each of the two trees into a flat list of
//! [`FileRecord`] values, one per relative path.  The engine turns those two
//! lists into one [`FullFileComparison`] per path of the unified path set.
//! Every type has a mathematical model (`View`) over which the contracts in
//! the rest of the crate are stated.

use vstd::prelude::*;

verus! {

/// The file kinds the comparison supports.  Any other kind found on disk
/// (device node, socket, FIFO) is an explicit unsupported case, represented
/// as `None` in [`FileRecord::kind`].
#[derive(Clone, Copy, Debug, PartialEq, Eq, Structural)]
pub enum SimpleFileType {
    RegFile,
    Directory,
    SoftLink,
}

/// The outcome of comparing one relative path across the two trees.
/// Exactly one outcome is produced per path; every variant except `Match`
/// is a short-circuit terminal of the staged pipeline.
#[derive(Clone, Copy, Debug, PartialEq, Eq, Structural)]
pub enum FileCmp {
    /// The path exists under neither root.
    ExistenceNeitherFile,
    /// The path exists only under the first root.
    ExistenceOnlyFirstFile,
    /// The path exists only under the second root.
    ExistenceOnlySecondFile,
    /// Both sides exist but their file types differ.
    FileTypeMismatch,
    /// Both sides are regular files and their byte contents differ.
    SubstanceRegFileContentMismatch,
    /// Both sides are symbolic links and their target strings differ.
    SubstanceSoftLinkLinkMismatch,
    /// Both sides match in substance but their modification times differ.
    ModificationTimeMismatch,
    /// The two sides are equivalent on every compared axis.
    Match,
}

impl FileCmp {
    /// Explicit rank of each outcome, in pipeline order, so that sorting
    /// does not silently change if the variants are ever reordered.
    pub open spec fn rank_spec(self) -> u8 {
        match self {
            FileCmp::ExistenceNeitherFile => 0,
            FileCmp::ExistenceOnlyFirstFile => 1,
            FileCmp::ExistenceOnlySecondFile => 2,
            FileCmp::FileTypeMismatch => 3,
            FileCmp::SubstanceRegFileContentMismatch => 4,
            FileCmp::SubstanceSoftLinkLinkMismatch => 5,
            FileCmp::ModificationTimeMismatch => 6,
            FileCmp::Match => 7,
        }
    }

    /// Returns the rank of this outcome.
    pub fn rank(&self) -> (r: u8)
        ensures
            r == self.rank_spec(),
    {
        match self {
            FileCmp::ExistenceNeitherFile => 0,
            FileCmp::ExistenceOnlyFirstFile => 1,
            FileCmp::ExistenceOnlySecondFile => 2,
            FileCmp::FileTypeMismatch => 3,
            FileCmp::SubstanceRegFileContentMismatch => 4,
            FileCmp::SubstanceSoftLinkLinkMismatch => 5,
            FileCmp::ModificationTimeMismatch => 6,
            FileCmp::Match => 7,
        }
    }
}

/// Everything the engine may need to know about one filesystem entry.
///
/// `path` is the entry's path relative to its tree root, with `/` between
/// components.  A field is `None` when the corresponding piece of
/// information could not be retrieved from the filesystem; the pipeline
/// stage that needs it then reports a per-path error instead of guessing.
pub struct FileRecord {
    /// Relative path of the entry, `/`-separated.
    pub path: Vec<u8>,
    /// File kind; `None` for an unsupported kind.
    pub kind: Option<SimpleFileType>,
    /// Size in bytes from the entry's own metadata.
    pub size: Option<u64>,
    /// Modification time of the entry itself, in nanoseconds.
    pub mtime: Option<u128>,
    /// Modification time with symbolic links followed, in nanoseconds.
    pub mtime_followed: Option<u128>,
    /// Literal target string of a symbolic link, unresolved.
    pub link_target: Option<Vec<u8>>,
    /// Byte content of a regular file.
    pub content: Option<Vec<u8>>,
}

/// Mathematical model of a [`FileRecord`].
pub struct RecordModel {
    pub path: Seq<u8>,
    pub kind: Option<SimpleFileType>,
    pub size: Option<u64>,
    pub mtime: Option<u128>,
    pub mtime_followed: Option<u128>,
    pub link_target: Option<Seq<u8>>,
    pub content: Option<Seq<u8>>,
}

impl View for FileRecord {
    type V = RecordModel;

    open spec fn view(&self) -> RecordModel {
        RecordModel {
            path: self.path@,
            kind: self.kind,
            size: self.size,
            mtime: self.mtime,
            mtime_followed: self.mtime_followed,
            link_target: match self.link_target {
                Some(t) => Some(t@),
                None => None,
            },
            content: match self.content {
                Some(c) => Some(c@),
                None => None,
            },
        }
    }
}

/// One enumerated tree: the root it was read from and one record per entry
/// found under that root.
pub struct TreeSnapshot {
    /// Path of the tree's root directory, as handed to the enumeration.
    pub root: Vec<u8>,
    /// One record per relative path under the root, in any order.
    pub records: Vec<FileRecord>,
}

/// Mathematical model of a [`TreeSnapshot`].
pub struct TreeModel {
    pub root: Seq<u8>,
    pub records: Seq<RecordModel>,
}

impl View for TreeSnapshot {
    type V = TreeModel;

    open spec fn view(&self) -> TreeModel {
        TreeModel { root: self.root@, records: self.records@.map_values(|r: FileRecord| r@) }
    }
}

/// The outcome of one path comparison together with the file type found on
/// each side (`None` where the side does not exist).
#[derive(Clone, Copy, Debug, PartialEq, Eq)]
pub struct PartialFileComparison {
    pub file_cmp: FileCmp,
    pub first_ft: Option<SimpleFileType>,
    pub second_ft: Option<SimpleFileType>,
}

impl PartialFileComparison {
    /// The invariant every produced comparison satisfies: a side's kind is
    /// present exactly when that side exists, and any outcome past the type
    /// stage has equal kinds on both sides.
    pub open spec fn wf(self) -> bool {
        match self.file_cmp {
            FileCmp::ExistenceNeitherFile => self.first_ft is None && self.second_ft is None,
            FileCmp::ExistenceOnlyFirstFile => self.first_ft is Some && self.second_ft is None,
            FileCmp::ExistenceOnlySecondFile => self.first_ft is None && self.second_ft is Some,
            FileCmp::FileTypeMismatch => self.first_ft is Some && self.second_ft is Some
                && self.first_ft != self.second_ft,
            _ => self.first_ft is Some && self.second_ft == self.first_ft,
        }
    }
}

/// A [`PartialFileComparison`] together with the full path of the compared
/// entry under each root.
#[derive(Debug, PartialEq, Eq)]
pub struct FullFileComparison {
    pub partial_cmp: PartialFileComparison,
    pub first_path: Vec<u8>,
    pub second_path: Vec<u8>,
}

/// Mathematical model of a [`FullFileComparison`].
pub struct FullCmpModel {
    pub partial_cmp: PartialFileComparison,
    pub first_path: Seq<u8>,
    pub second_path: Seq<u8>,
}

impl View for FullFileComparison {
    type V = FullCmpModel;

    open spec fn view(&self) -> FullCmpModel {
        FullCmpModel {
            partial_cmp: self.partial_cmp,
            first_path: self.first_path@,
            second_path: self.second_path@,
        }
    }
}

/// The roots of an ongoing comparison and the relative prefix the engine is
/// currently working under (empty at the top level).
pub struct ComparisonContext {
    pub first_root: Vec<u8>,
    pub second_root: Vec<u8>,
    pub extension: Vec<u8>,
}

/// Mathematical model of a [`ComparisonContext`].
pub struct ContextModel {
    pub first_root: Seq<u8>,
    pub second_root: Seq<u8>,
    pub extension: Seq<u8>,
}

impl View for ComparisonContext {
    type V = ContextModel;

    open spec fn view(&self) -> ContextModel {
        ContextModel {
            first_root: self.first_root@,
            second_root: self.second_root@,
            extension: self.extension@,
        }
    }
}

/// A per-path failure, dropped from the result set rather than aborting the
/// whole comparison.
#[derive(Clone, Copy, Debug, PartialEq, Eq, Structural)]
pub enum CmpError {
    /// Metadata (size or modification time) of an existing path was missing.
    MetadataError,
    /// A regular file's bytes could not be read.
    FileReadError,
    /// A symbolic link's target could not be read.
    LinkReadError,
    /// The path exists but its file kind is not supported.
    UnsupportedFileType,
}

/// A failure of the whole comparison.
#[derive(Clone, Copy, Debug, PartialEq, Eq, Structural)]
pub enum EngineError {
    /// One of the snapshots lists the same relative path twice.
    DuplicatePath,
}

} // verus!
