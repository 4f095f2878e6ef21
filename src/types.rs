//! Plain data describing objects on the filesystem.

use vstd::prelude::*;

verus! {

/// Time info returned from a `stat` call.
#[derive(Debug, Clone, Copy, PartialEq, Eq, Structural)]
pub struct Timespec {
    /// Seconds.
    pub secs: i64,
    /// Nanoseconds; not every filesystem provides them, so often 0.
    pub nanos: i64,
}

impl Timespec {
    /// Create a [`Timespec`] from the number of milliseconds since the epoch.
    pub fn from_epoch_millis(millis: u64) -> (r: Timespec)
        ensures
            r.secs == millis / 1000,
            r.nanos == (millis % 1000) * 1_000_000,
            r.secs * 1000 + r.nanos / 1_000_000 == millis,
    {
        let secs: u64 = millis / 1000;
        let rem: u64 = millis % 1000;
        let nanos: u64 = rem * 1_000_000;
        Timespec { secs: secs as i64, nanos: nanos as i64 }
    }
}

/// Kind of object on the filesystem.
#[derive(Debug, Clone, Copy, PartialEq, Eq, Structural)]
pub enum FileType {
    File,
    Directory,
    Symlink,
}

/// Metadata about a file that is used to detect changes.
#[derive(Debug, Clone, Copy, PartialEq, Eq, Structural)]
pub struct FileStat {
    /// Size of a file in bytes.
    pub size: u64,
    /// Type of the file.
    pub kind: FileType,
    /// Inode number of the file.
    pub inode: u64,
    /// File mode/permissions.
    pub mode: u32,
    /// User ID of the file owner.
    pub user: u32,
    /// Group ID of the file owner.
    pub group: u32,
    /// File modified time; generally changes when the content changes.
    pub mtime: Timespec,
    /// Attribute change time; changes with ownership, size or link count.
    pub ctime: Timespec,
    /// Optimal blocksize for I/O, if available.
    pub optimal_blocksize: Option<usize>,
}

/// Information returned for an individual entry when listing a directory.
#[derive(Debug, Clone, PartialEq, Eq)]
pub struct DirectoryEntry {
    /// Inode number of the file.
    pub inode: u64,
    /// Name of the entry.
    pub name: String,
    /// Kind of entry.
    pub kind: FileType,
}

/// Hash from xxh64.
#[derive(Debug, Clone, Copy, PartialEq, Eq, PartialOrd, Ord, Hash, Structural)]
pub struct Xxh64Hash(pub u64);

impl Xxh64Hash {
    pub fn new(val: u64) -> (r: Xxh64Hash)
        ensures
            r.0 == val,
    {
        Xxh64Hash(val)
    }
}

/// Hash from xxh128.
#[derive(Debug, Clone, Copy, PartialEq, Eq, PartialOrd, Ord, Hash, Structural)]
pub struct Xxh128Hash(pub u128);

impl Xxh128Hash {
    pub fn new(val: u128) -> (r: Xxh128Hash)
        ensures
            r.0 == val,
    {
        Xxh128Hash(val)
    }
}

/// Metadata tracked for a file to determine when it has changed.
#[derive(Debug, Clone, PartialEq, Eq)]
pub struct FileMetadata<T> {
    /// Size of the file in bytes.
    pub size: u64,
    /// Last modified time of the file.
    pub mtime: Timespec,
    /// Inode of the file.
    pub inode: u64,
    /// File mode/permissions.
    pub mode: u32,
    /// Fingerprint of the file contents, generally a hash.
    pub fingerprint: T,
}

impl<T> FileMetadata<T> {
    /// The change-detection metadata of a file with the given stat and fingerprint.
    pub fn from_stat(stat: &FileStat, fingerprint: T) -> (r: FileMetadata<T>)
        ensures
            r.size == stat.size,
            r.mtime == stat.mtime,
            r.inode == stat.inode,
            r.mode == stat.mode,
            r.fingerprint == fingerprint,
    {
        FileMetadata {
            size: stat.size,
            mtime: stat.mtime,
            inode: stat.inode,
            mode: stat.mode,
            fingerprint,
        }
    }
}

/// Compiler optimization levels across different compilers.
#[derive(Debug, Clone, Copy, PartialEq, Eq, Hash, Structural)]
pub enum OptimizationLevel {
    /// No optimization.
    Unoptimized,
    /// Minimal performance improvements.
    Basic,
    /// A balance of performance and compilation time.
    Standard,
    /// Every optimization.
    All,
    /// Optimize for binary size over speed.
    Size,
    /// Aggressively optimize for the smallest binary.
    MinSize,
    /// Maximum performance, may break standards compliance.
    MaxPerformence,
    /// Some performance while debugging stays possible.
    Debug,
}

} // verus!
