//! Files as the kernel sees them: the operations every open file offers, a
//! descriptor-table entry, and file status.
use vstd::prelude::*;

verus! {

/// What every kind of open file (regular file, pipe end, console) offers.
pub trait File {
    /// Whether the file can be read.
    fn readable(&self) -> bool;

    /// Whether the file can be written.
    fn writable(&self) -> bool;

    /// Reads into `buf`; returns how many bytes were read.
    fn read(&self, buf: &mut Vec<u8>) -> usize;

    /// Writes from `buf`; returns how many bytes were written.
    fn write(&self, buf: &Vec<u8>) -> usize;

    /// The file's status.
    fn fstat(&self) -> Stat;
}

/// An entry of a task's file-descriptor table: which open file it names.
#[derive(Clone, Copy, PartialEq, Eq, Structural, Debug)]
pub struct FileDesc {
    /// The open file, by the id under which the file layer keeps it.
    pub file_id: usize,
}

/// The mode of an inode: whether a directory or a file.
#[derive(Clone, Copy, PartialEq, Eq, Structural, Debug)]
pub struct StatMode {
    pub bits: u32,
}

/// No type.
pub const STAT_NULL: u32 = 0;

/// A directory.
pub const STAT_DIR: u32 = 0o040000;

/// An ordinary regular file.
pub const STAT_FILE: u32 = 0o100000;

/// The status of an inode.
#[derive(Clone, Copy, PartialEq, Eq, Structural, Debug)]
pub struct Stat {
    /// ID of the device containing the file.
    pub dev: u64,
    /// Inode number.
    pub ino: u64,
    /// File type and mode.
    pub mode: StatMode,
    /// Number of hard links.
    pub nlink: u32,
}

} // verus!
