//! The facts of one file system object, as one `stat` reports them.

use vstd::prelude::*;

verus! {

/// The kind of a file system object.
#[derive(Clone, Copy, Debug, PartialEq, Eq, Structural)]
pub enum FileType {
    Regular,
    Directory,
    Symlink,
    Other,
}

impl FileType {
    pub fn is_dir(&self) -> (r: bool)
        ensures
            r == (*self == FileType::Directory),
    {
        match self {
            FileType::Directory => true,
            _ => false,
        }
    }

    pub fn is_symlink(&self) -> (r: bool)
        ensures
            r == (*self == FileType::Symlink),
    {
        match self {
            FileType::Symlink => true,
            _ => false,
        }
    }
}

/// A snapshot of the metadata of one path. A failed `stat` never becomes a
/// value of this type: the caller reports it as a failure of its own.
#[derive(Clone, Copy, Debug, PartialEq, Eq, Structural)]
pub struct JoshutoMetadata {
    /// Size in bytes.
    pub len: u64,
    /// Time of the last modification, counted from the epoch.
    pub modified: u64,
    /// Permission bits.
    pub mode: u32,
    pub file_type: FileType,
}

/// Why the file system refused to list or to stat a path.
#[derive(Clone, Copy, Debug, PartialEq, Eq, Structural)]
pub enum FsError {
    NotFound,
    PermissionDenied,
    AlreadyExists,
    Other,
}

/// The permission bits that let the owner, the group or anyone execute.
pub const EXECUTE_BITS: u32 = 0o111;

/// Whether a mode lets anyone execute the file.
pub open spec fn executable_mode(mode: u32) -> bool {
    mode & EXECUTE_BITS != 0
}

pub fn is_executable(mode: u32) -> (r: bool)
    ensures
        r == executable_mode(mode),
{
    mode & EXECUTE_BITS != 0
}

} // verus!
