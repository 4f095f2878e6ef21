//! The interface to one operating system's filesystem calls, and the fallback
//! platform that fails every call.

use vstd::prelude::*;
use crate::error::Error;
use crate::types::{DirectoryEntry, FileStat};

verus! {

/// Options for opening an object, as a set of bits.
#[derive(Debug, Clone, Copy, PartialEq, Eq, Structural)]
pub struct OpenOptions {
    pub bits: u32,
}

pub const READ_ONLY: u32 = 0b0000_0001;
pub const READ_WRITE: u32 = 0b0000_0010;
pub const APPEND: u32 = 0b0000_0100;
pub const CREATE: u32 = 0b0000_1000;
pub const EXCLUSIVE: u32 = 0b0001_0000;
pub const TRUNCATE: u32 = 0b0010_0000;
/// Restrict opening to directories.
pub const DIRECTORY: u32 = 0b0100_0000;

impl OpenOptions {
    /// Whether every bit of `flag` is set.
    pub open spec fn has(self, flag: u32) -> bool {
        self.bits & flag == flag
    }

    pub fn from_bits(bits: u32) -> (r: OpenOptions)
        ensures
            r.bits == bits,
    {
        OpenOptions { bits }
    }

    pub open spec fn spec_read_only() -> OpenOptions {
        OpenOptions { bits: READ_ONLY }
    }

    /// The default options: read only.
    pub fn read_only() -> (r: OpenOptions)
        ensures
            r.bits == READ_ONLY,
    {
        OpenOptions { bits: READ_ONLY }
    }

    /// Options that restrict opening to directories.
    pub fn directory() -> (r: OpenOptions)
        ensures
            r.bits == DIRECTORY,
    {
        OpenOptions { bits: DIRECTORY }
    }

    pub fn contains(&self, flag: u32) -> (r: bool)
        ensures
            r == self.has(flag),
    {
        self.bits & flag == flag
    }

    /// These options with the bits of `flag` added.
    pub fn with(self, flag: u32) -> (r: OpenOptions)
        ensures
            r.bits == self.bits | flag,
    {
        OpenOptions { bits: self.bits | flag }
    }
}

/// A path as one platform spells it.
pub trait PlatformPath: Sized {
    /// The text of the path.
    spec fn text(&self) -> Seq<char>;

    fn into_string(self) -> (r: String)
        ensures
            r@ == self.text(),
    ;

    fn try_new(val: String) -> (r: Result<Self, Error>)
        ensures
            r matches Ok(p) ==> p.text() == val@,
    ;
}

/// A single component of a [`PlatformPath`].
pub trait PlatformFilename: Sized {
    /// The text of the filename.
    spec fn text(&self) -> Seq<char>;

    fn try_new(val: String) -> (r: Result<Self, Error>)
        ensures
            r matches Ok(p) ==> p.text() == val@,
    ;
}

/// Filesystem operations of one platform. Every call is synchronous and may
/// block; callers run them on worker threads.
pub trait Platform {
    type Path: PlatformPath;
    type Filename: PlatformFilename;
    type Handle: Copy;

    /// Whether the platform implements its calls at all; one that does not
    /// fails every call with the explicit unimplemented error.
    spec fn supported() -> bool;

    fn open(path: Self::Path, options: OpenOptions) -> (r: Result<Self::Handle, Error>)
        ensures
            !Self::supported() ==> (r matches Err(e) && e == Error::Unknown(UNIMPLEMENTED)),
    ;

    fn openat(
        handle: Self::Handle,
        filename: Self::Filename,
        options: OpenOptions,
    ) -> (r: Result<Self::Handle, Error>)
        ensures
            !Self::supported() ==> (r matches Err(e) && e == Error::Unknown(UNIMPLEMENTED)),
    ;

    fn close(handle: Self::Handle) -> (r: Result<(), Error>)
        ensures
            !Self::supported() ==> (r matches Err(e) && e == Error::Unknown(UNIMPLEMENTED)),
    ;

    fn mkdir(path: Self::Path) -> (r: Result<(), Error>)
        ensures
            !Self::supported() ==> (r matches Err(e) && e == Error::Unknown(UNIMPLEMENTED)),
    ;

    fn mkdirat(handle: Self::Handle, filename: Self::Filename) -> (r: Result<(), Error>)
        ensures
            !Self::supported() ==> (r matches Err(e) && e == Error::Unknown(UNIMPLEMENTED)),
    ;

    fn stat(path: Self::Path) -> (r: Result<FileStat, Error>)
        ensures
            !Self::supported() ==> (r matches Err(e) && e == Error::Unknown(UNIMPLEMENTED)),
    ;

    fn fstat(handle: Self::Handle) -> (r: Result<FileStat, Error>)
        ensures
            !Self::supported() ==> (r matches Err(e) && e == Error::Unknown(UNIMPLEMENTED)),
    ;

    fn fstatat(handle: Self::Handle, filename: Self::Filename) -> (r: Result<FileStat, Error>)
        ensures
            !Self::supported() ==> (r matches Err(e) && e == Error::Unknown(UNIMPLEMENTED)),
    ;

    /// Flushes the file to the storage device's buffer.
    fn fsync(handle: Self::Handle) -> (r: Result<(), Error>)
        ensures
            !Self::supported() ==> (r matches Err(e) && e == Error::Unknown(UNIMPLEMENTED)),
    ;

    /// Lists a directory without consuming or invalidating `handle`.
    fn listdir(handle: Self::Handle) -> (r: Result<Vec<DirectoryEntry>, Error>)
        ensures
            !Self::supported() ==> (r matches Err(e) && e == Error::Unknown(UNIMPLEMENTED)),
    ;

    /// Reads into `buf` at `offset`, returning how many bytes it filled.
    fn read(handle: Self::Handle, buf: &mut [u8], offset: usize) -> (r: Result<usize, Error>)
        ensures
            !Self::supported() ==> (r matches Err(e) && e == Error::Unknown(UNIMPLEMENTED)),
            final(buf)@.len() == old(buf)@.len(),
            r matches Ok(n) ==> n <= old(buf)@.len(),
    ;

    /// Writes `data` at `offset`, returning how many bytes were written.
    fn write(handle: Self::Handle, data: &[u8], offset: usize) -> (r: Result<usize, Error>)
        ensures
            !Self::supported() ==> (r matches Err(e) && e == Error::Unknown(UNIMPLEMENTED)),
            r matches Ok(n) ==> n <= data@.len(),
    ;

    fn rename(from: Self::Path, to: Self::Path) -> (r: Result<(), Error>)
        ensures
            !Self::supported() ==> (r matches Err(e) && e == Error::Unknown(UNIMPLEMENTED)),
    ;

    fn renameat(
        from_handle: Self::Handle,
        from_filename: Self::Filename,
        to_handle: Self::Handle,
        to_filename: Self::Filename,
    ) -> (r: Result<(), Error>)
        ensures
            !Self::supported() ==> (r matches Err(e) && e == Error::Unknown(UNIMPLEMENTED)),
    ;

    fn fsetxattr(handle: Self::Handle, name: Self::Filename, data: &[u8]) -> (r: Result<(), Error>)
        ensures
            !Self::supported() ==> (r matches Err(e) && e == Error::Unknown(UNIMPLEMENTED)),
    ;

    /// Reads an extended attribute into `buf`; a buffer that is too small
    /// fails with the "result too large" code.
    fn fgetxattr(handle: Self::Handle, name: Self::Filename, buf: &mut [u8]) -> (r: Result<
        usize,
        Error,
    >)
        ensures
            !Self::supported() ==> (r matches Err(e) && e == Error::Unknown(UNIMPLEMENTED)),
            final(buf)@.len() == old(buf)@.len(),
            r matches Ok(n) ==> n <= old(buf)@.len(),
    ;

    /// Recovers the absolute path of an open handle.
    fn fgetpath(handle: Self::Handle) -> (r: Result<Self::Path, Error>)
        ensures
            !Self::supported() ==> (r matches Err(e) && e == Error::Unknown(UNIMPLEMENTED)),
    ;

    /// The process-wide ceiling on open descriptors.
    fn file_handle_max() -> (r: Result<usize, Error>)
        ensures
            !Self::supported() ==> (r matches Err(e) && e == Error::Unknown(UNIMPLEMENTED)),
    ;
}

/// Error code that [`TodoPlatform`] reports.
pub const UNIMPLEMENTED: i32 = 78;

impl PlatformPath for String {
    open spec fn text(&self) -> Seq<char> {
        self@
    }

    fn into_string(self) -> (r: String) {
        self
    }

    fn try_new(val: String) -> (r: Result<String, Error>) {
        Ok(val)
    }
}

impl PlatformFilename for String {
    open spec fn text(&self) -> Seq<char> {
        self@
    }

    fn try_new(val: String) -> (r: Result<String, Error>) {
        Ok(val)
    }
}

/// Platform for operating systems without an implementation: every call
/// fails with an explicit error.
pub struct TodoPlatform;

impl Platform for TodoPlatform {
    type Path = String;
    type Filename = String;
    type Handle = u64;

    open spec fn supported() -> bool {
        false
    }

    fn open(_path: String, _options: OpenOptions) -> Result<u64, Error> {
        Err(Error::Unknown(UNIMPLEMENTED))
    }

    fn openat(_handle: u64, _filename: String, _options: OpenOptions) -> Result<u64, Error> {
        Err(Error::Unknown(UNIMPLEMENTED))
    }

    fn close(_handle: u64) -> Result<(), Error> {
        Err(Error::Unknown(UNIMPLEMENTED))
    }

    fn mkdir(_path: String) -> Result<(), Error> {
        Err(Error::Unknown(UNIMPLEMENTED))
    }

    fn mkdirat(_handle: u64, _filename: String) -> Result<(), Error> {
        Err(Error::Unknown(UNIMPLEMENTED))
    }

    fn stat(_path: String) -> Result<FileStat, Error> {
        Err(Error::Unknown(UNIMPLEMENTED))
    }

    fn fstat(_handle: u64) -> Result<FileStat, Error> {
        Err(Error::Unknown(UNIMPLEMENTED))
    }

    fn fstatat(_handle: u64, _filename: String) -> Result<FileStat, Error> {
        Err(Error::Unknown(UNIMPLEMENTED))
    }

    fn fsync(_handle: u64) -> Result<(), Error> {
        Err(Error::Unknown(UNIMPLEMENTED))
    }

    fn listdir(_handle: u64) -> Result<Vec<DirectoryEntry>, Error> {
        Err(Error::Unknown(UNIMPLEMENTED))
    }

    fn read(_handle: u64, _buf: &mut [u8], _offset: usize) -> (r: Result<usize, Error>) {
        Err(Error::Unknown(UNIMPLEMENTED))
    }

    fn write(_handle: u64, _data: &[u8], _offset: usize) -> (r: Result<usize, Error>) {
        Err(Error::Unknown(UNIMPLEMENTED))
    }

    fn rename(_from: String, _to: String) -> Result<(), Error> {
        Err(Error::Unknown(UNIMPLEMENTED))
    }

    fn renameat(
        _from_handle: u64,
        _from_filename: String,
        _to_handle: u64,
        _to_filename: String,
    ) -> Result<(), Error> {
        Err(Error::Unknown(UNIMPLEMENTED))
    }

    fn fsetxattr(_handle: u64, _name: String, _data: &[u8]) -> Result<(), Error> {
        Err(Error::Unknown(UNIMPLEMENTED))
    }

    fn fgetxattr(_handle: u64, _name: String, _buf: &mut [u8]) -> (r: Result<usize, Error>) {
        Err(Error::Unknown(UNIMPLEMENTED))
    }

    fn fgetpath(_handle: u64) -> Result<String, Error> {
        Err(Error::Unknown(UNIMPLEMENTED))
    }

    fn file_handle_max() -> Result<usize, Error> {
        Err(Error::Unknown(UNIMPLEMENTED))
    }
}

} // verus!
