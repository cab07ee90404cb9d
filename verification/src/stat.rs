//! File metadata.
use vstd::prelude::*;

verus! {

/// The type of an inode.
#[derive(Clone, Copy, Debug, PartialEq, Eq, Structural)]
pub enum InodeType {
    Unknown,
    /// Directory
    Dir,
    /// File
    File,
    /// Device
    Device,
}

/// The number that stands for an inode type on disk and in `Stat`.
pub open spec fn type_code(t: InodeType) -> i16 {
    match t {
        InodeType::Unknown => 0,
        InodeType::Dir => 1,
        InodeType::File => 2,
        InodeType::Device => 3,
    }
}

impl InodeType {
    /// The number that stands for this type.
    pub fn code(&self) -> (r: i16)
        ensures
            r == type_code(*self),
    {
        match self {
            InodeType::Unknown => 0,
            InodeType::Dir => 1,
            InodeType::File => 2,
            InodeType::Device => 3,
        }
    }
}

/// What fstat reports of a file.
#[derive(Clone, Copy, Debug, PartialEq, Eq, Structural)]
pub struct Stat {
    /// File system's disk device
    pub dev: i32,
    /// Inode number
    pub ino: u32,
    /// Type of file
    pub type_: i16,
    /// Number of links to file
    pub nlink: i16,
    /// Size of file in bytes
    pub size: u64,
}

} // verus!
