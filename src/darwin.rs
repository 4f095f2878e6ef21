#![allow(non_camel_case_types)]
//! Data of the Darwin platform and its conversion into the platform-neutral
//! types: open flags, `stat` records and directory entries.

use vstd::prelude::*;
use vstd::utf8::*;
use crate::cast::CastFrom;
use crate::error::Error;
use crate::platform::{OpenOptions, PlatformFilename, PlatformPath, APPEND, CREATE, DIRECTORY, EXCLUSIVE, READ_WRITE, TRUNCATE};
use crate::types::{DirectoryEntry, FileStat, FileType, Timespec};

verus! {

/// Open for reading only.
pub const O_RDONLY: i32 = 0x0000;
/// Open for reading and writing.
pub const O_RDWR: i32 = 0x0002;
/// Append on each write.
pub const O_APPEND: i32 = 0x0008;
/// Error if `O_CREAT` is set and the file exists.
pub const O_EXCL: i32 = 0x0800;
/// Create the file if it doesn't exist.
pub const O_CREAT: i32 = 0x0200;
/// Truncate the file to 0 length.
pub const O_TRUNC: i32 = 0x0400;
/// Restrict opening to directories.
pub const O_DIRECTORY: i32 = 0x0010_0000;

/// Mask of `st_mode` that holds the file type.
pub const S_IFMT: u16 = 0xF000;
/// Directory.
pub const S_IFDIR: u16 = 0x4000;
/// Regular file.
pub const S_IFREG: u16 = 0x8000;
/// Symbolic link.
pub const S_IFLNK: u16 = 0xA000;

/// Directory, from `readdir`.
pub const DT_DIR: u8 = 4;
/// Regular file, from `readdir`.
pub const DT_REG: u8 = 8;
/// Symbolic link, from `readdir`.
pub const DT_LNK: u8 = 10;

/// Mode of newly created files: read and write for everyone.
pub const DEFAULT_FILE_MODE: u32 = 0o666;
/// Mode of newly created directories.
pub const DEFAULT_DIR_MODE: u32 = 0o777;

/// Longest file name in a directory entry.
pub const MAXPATHLEN: usize = 1024;

/// An open file descriptor.
#[derive(Debug, Clone, Copy, PartialEq, Eq, Structural)]
pub struct DarwinHandle {
    inner: i32,
}

impl DarwinHandle {
    pub closed spec fn raw(self) -> i32 {
        self.inner
    }

    pub fn from_raw(val: i32) -> (r: DarwinHandle)
        ensures
            r.raw() == val,
    {
        DarwinHandle { inner: val }
    }

    pub fn into_raw(self) -> (r: i32)
        ensures
            r == self.raw(),
    {
        self.inner
    }
}

/// A file descriptor used as a stream.
#[derive(Debug, Clone, Copy, PartialEq, Eq, Structural)]
pub struct DarwinFileStream {
    inner: i32,
}

impl DarwinFileStream {
    pub closed spec fn raw(self) -> i32 {
        self.inner
    }

    pub fn from_raw(val: i32) -> (r: DarwinFileStream)
        ensures
            r.raw() == val,
    {
        DarwinFileStream { inner: val }
    }

    pub fn into_raw(self) -> (r: i32)
        ensures
            r == self.raw(),
    {
        self.inner
    }
}

/// A directory stream, identified by the address the platform gave it.
#[derive(Debug, Clone, Copy, PartialEq, Eq, Structural)]
pub struct DarwinDirStream {
    pub inner: usize,
}

/// Data returned by calls of the `stat` family.
#[derive(Debug, Clone, Copy, Default)]
pub struct stat {
    pub st_dev: i32,
    pub st_mode: u16,
    pub st_nlink: u16,
    pub st_ino: u64,
    pub st_uid: u32,
    pub st_gid: u32,
    pub st_rdev: i32,
    pub st_atime: i64,
    pub st_atime_nsec: i64,
    pub st_mtime: i64,
    pub st_mtime_nsec: i64,
    pub st_ctime: i64,
    pub st_ctime_nsec: i64,
    pub st_birthtime: i64,
    pub st_birthtime_nsec: i64,
    pub st_size: i64,
    pub st_blocks: i64,
    pub st_blksize: i32,
    pub st_flags: u32,
    pub st_gen: u32,
    pub st_lspare: i32,
    pub st_qspare: [i64; 2],
}

/// A directory entry returned by the `readdir` family.
#[derive(Debug, Clone, Copy)]
pub struct dirent {
    pub d_ino: u64,
    pub d_seekoff: u64,
    pub d_reclen: u16,
    pub d_namlen: u16,
    pub d_type: u8,
    pub d_name: [u8; 1024],
}

impl Default for dirent {
    fn default() -> (r: dirent)
        ensures
            r.d_ino == 0 && r.d_seekoff == 0 && r.d_reclen == 0 && r.d_namlen == 0 && r.d_type == 0,
            forall|i: int| 0 <= i < 1024 ==> r.d_name@[i] == 0u8,
    {
        dirent { d_ino: 0, d_seekoff: 0, d_reclen: 0, d_namlen: 0, d_type: 0, d_name: [0u8; 1024] }
    }
}

/// Limits returned from `getrlimit`.
#[derive(Debug, Clone, Copy, Default)]
pub struct rlimit {
    /// Current (soft) limit.
    pub rlim_cur: u64,
    /// Hard limit.
    pub rlim_max: u64,
}

/// A path on HFS+ or APFS.
///
/// Both default to case-insensitive, case-preserving names; HFS+ stores names
/// in NFD, APFS compares them insensitive to normalization.
#[derive(Debug, Clone, PartialEq, Eq)]
pub struct DarwinPath {
    inner: String,
}

impl DarwinPath {
    pub fn into_inner(self) -> (r: String)
        ensures
            r@ == self.text(),
    {
        self.inner
    }
}

impl PlatformPath for DarwinPath {
    closed spec fn text(&self) -> Seq<char> {
        self.inner@
    }

    fn into_string(self) -> (r: String) {
        self.inner
    }

    fn try_new(val: String) -> (r: Result<DarwinPath, Error>) {
        Ok(DarwinPath { inner: val })
    }
}

/// A single component of a [`DarwinPath`].
#[derive(Debug, Clone, PartialEq, Eq)]
pub struct DarwinFilename {
    inner: String,
}

impl DarwinFilename {
    pub fn into_inner(self) -> (r: String)
        ensures
            r@ == self.text(),
    {
        self.inner
    }
}

impl PlatformFilename for DarwinFilename {
    closed spec fn text(&self) -> Seq<char> {
        self.inner@
    }

    fn try_new(val: String) -> (r: Result<DarwinFilename, Error>) {
        Ok(DarwinFilename { inner: val })
    }
}

/// The `open` flag that option bit `flag` asks for, or 0 when it is unset.
pub open spec fn flag_for(options: OpenOptions, flag: u32, bits: i32) -> i32 {
    if options.has(flag) {
        bits
    } else {
        0
    }
}

/// The `open` flags for the given options: every requested bit is honoured.
/// Reading and writing is asked for by READ_WRITE and by each option that
/// writes (CREATE, TRUNCATE, APPEND); otherwise the file is read only.
pub open spec fn open_flags_spec(options: OpenOptions) -> i32 {
    let writes = options.has(READ_WRITE) || options.has(CREATE) || options.has(TRUNCATE) || options.has(APPEND);
    (if writes { O_RDWR } else { O_RDONLY })
        | flag_for(options, DIRECTORY, O_DIRECTORY)
        | flag_for(options, CREATE, O_CREAT)
        | flag_for(options, EXCLUSIVE, O_EXCL)
        | flag_for(options, TRUNCATE, O_TRUNC)
        | flag_for(options, APPEND, O_APPEND)
}

/// The file type that the type bits of a `st_mode` stand for; a pattern
/// that is neither link, directory nor regular file counts as a file.
pub open spec fn kind_of_mode(mode: u16) -> FileType {
    let masked = mode & S_IFMT;
    if masked == S_IFLNK {
        FileType::Symlink
    } else if masked == S_IFDIR {
        FileType::Directory
    } else {
        FileType::File
    }
}

/// The file type that a `d_type` stands for; unknown values count as a file.
pub open spec fn kind_of_dirent_type(t: u8) -> FileType {
    if t == DT_DIR {
        FileType::Directory
    } else if t == DT_LNK {
        FileType::Symlink
    } else {
        FileType::File
    }
}

/// The [`FileStat`] of a raw `stat` record with a non-negative size.
pub open spec fn file_stat_of(raw: stat) -> FileStat {
    FileStat {
        size: raw.st_size as u64,
        kind: kind_of_mode(raw.st_mode),
        inode: raw.st_ino,
        mode: raw.st_mode as u32,
        user: raw.st_uid,
        group: raw.st_gid,
        mtime: Timespec { secs: raw.st_mtime, nanos: raw.st_mtime_nsec },
        ctime: Timespec { secs: raw.st_ctime, nanos: raw.st_ctime_nsec },
        optimal_blocksize: if raw.st_blksize < 0 {
            None
        } else {
            Some(raw.st_blksize as usize)
        },
    }
}

/// Relies on std::str::from_utf8: it accepts exactly the valid UTF-8 byte
/// strings, and the text it returns encodes back to the same bytes.
#[verifier::external_body]
fn decode_utf8(bytes: &[u8]) -> (r: Option<String>)
    ensures
        r is Some <==> valid_utf8(bytes@),
        r matches Some(s) ==> encode_utf8(s@) == bytes@,
{
    std::str::from_utf8(bytes).ok().map(|s| s.to_string())
}

/// The Darwin platform.
pub struct DarwinPlatform;

impl DarwinPlatform {
    /// The `open` flags and creation mode for the given options. Files that
    /// may be created get a writable mode; otherwise the mode is 0.
    pub fn open_flags(options: OpenOptions) -> (r: (i32, u32))
        ensures
            r.0 == open_flags_spec(options),
            r.1 == (if options.has(CREATE) { DEFAULT_FILE_MODE } else { 0u32 }),
    {
        let writes = options.contains(READ_WRITE) || options.contains(CREATE) || options.contains(TRUNCATE)
            || options.contains(APPEND);
        let base: i32 = if writes { O_RDWR } else { O_RDONLY };
        let dir: i32 = if options.contains(DIRECTORY) { O_DIRECTORY } else { 0 };
        let creat: i32 = if options.contains(CREATE) { O_CREAT } else { 0 };
        let excl: i32 = if options.contains(EXCLUSIVE) { O_EXCL } else { 0 };
        let trunc: i32 = if options.contains(TRUNCATE) { O_TRUNC } else { 0 };
        let append: i32 = if options.contains(APPEND) { O_APPEND } else { 0 };
        let flags = base | dir | creat | excl | trunc | append;
        let mode: u32 = if options.contains(CREATE) {
            DEFAULT_FILE_MODE
        } else {
            0
        };
        (flags, mode)
    }

    /// Converts a raw `stat` record; a negative size is invalid data.
    pub fn file_stat(raw: &stat) -> (r: Result<FileStat, Error>)
        ensures
            raw.st_size < 0 <==> r matches Err(Error::InvalidData(_)),
            raw.st_size >= 0 ==> r == Ok::<FileStat, Error>(file_stat_of(*raw)),
    {
        if raw.st_size < 0 {
            return Err(Error::InvalidData("negative file size".to_string()));
        }
        let masked: u16 = raw.st_mode & S_IFMT;
        let kind = if masked == S_IFLNK {
            FileType::Symlink
        } else if masked == S_IFDIR {
            FileType::Directory
        } else {
            FileType::File
        };
        let optimal_blocksize = if raw.st_blksize < 0 {
            None
        } else {
            Some(raw.st_blksize as usize)
        };
        Ok(FileStat {
            size: raw.st_size as u64,
            kind,
            inode: raw.st_ino,
            mode: u32::cast_from(raw.st_mode),
            user: raw.st_uid,
            group: raw.st_gid,
            mtime: Timespec { secs: raw.st_mtime, nanos: raw.st_mtime_nsec },
            ctime: Timespec { secs: raw.st_ctime, nanos: raw.st_ctime_nsec },
            optimal_blocksize,
        })
    }

    /// Converts a raw directory entry. A name length past the buffer, or a
    /// name that is not UTF-8, is invalid data.
    pub fn directory_entry(raw: &dirent) -> (r: Result<DirectoryEntry, Error>)
        ensures
            r is Ok <==> (raw.d_namlen as usize <= MAXPATHLEN && valid_utf8(
                raw.d_name@.subrange(0, raw.d_namlen as int),
            )),
            r matches Ok(e) ==> {
                &&& encode_utf8(e.name@) == raw.d_name@.subrange(0, raw.d_namlen as int)
                &&& e.inode == raw.d_ino
                &&& e.kind == kind_of_dirent_type(raw.d_type)
            },
            r matches Err(e) ==> e is InvalidData,
    {
        let len = usize::cast_from(raw.d_namlen);
        if len > MAXPATHLEN {
            return Err(Error::InvalidData("directory entry name too long".to_string()));
        }
        let mut name: Vec<u8> = Vec::new();
        let mut i: usize = 0;
        while i < len
            invariant
                len <= MAXPATHLEN,
                i <= len,
                raw.d_name@.len() == MAXPATHLEN,
                name@ == raw.d_name@.subrange(0, i as int),
            decreases len - i,
        {
            name.push(raw.d_name[i]);
            i = i + 1;
        }
        let decoded = decode_utf8(name.as_slice());
        let name = match decoded {
            Some(s) => s,
            None => {
                return Err(Error::InvalidData("file name is not UTF-8".to_string()));
            },
        };
        let kind = if raw.d_type == DT_DIR {
            FileType::Directory
        } else if raw.d_type == DT_LNK {
            FileType::Symlink
        } else {
            FileType::File
        };
        Ok(DirectoryEntry { inode: raw.d_ino, name, kind })
    }

    /// The descriptor ceiling from a `getrlimit` result; a soft limit past
    /// the largest `usize` (such as "unlimited") counts as the largest.
    pub fn handle_max_from_limits(limits: &rlimit) -> (r: usize)
        ensures
            limits.rlim_cur <= usize::MAX ==> r == limits.rlim_cur,
            limits.rlim_cur > usize::MAX ==> r == usize::MAX,
    {
        if limits.rlim_cur > usize::MAX as u64 {
            usize::MAX
        } else {
            limits.rlim_cur as usize
        }
    }
}

} // verus!
