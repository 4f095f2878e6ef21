//! The decisions behind typed handles: what a handle may be opened as, how
//! it is opened, what happens when one is dropped, and reading a file in
//! chunks through a reusable block.

use vstd::prelude::*;
use crate::error::Error;
use crate::filesystem::{Block, PermitEvent, PermitLedger};
use crate::platform::{OpenOptions, Platform, PlatformFilename, PlatformPath, APPEND, CREATE, EXCLUSIVE, TRUNCATE};
use crate::types::{FileStat, FileType};

verus! {

/// Marker for a handle whose kind is not known yet.
#[derive(Debug, Clone, Copy, PartialEq, Eq, Structural)]
pub struct UnknownKind;

/// Marker for a handle to a regular file.
#[derive(Debug, Clone, Copy, PartialEq, Eq, Structural)]
pub struct FileKind {
    /// Optimal blocksize for I/O.
    pub optimal_blocksize: Option<usize>,
}

/// Marker for a handle to a directory.
#[derive(Debug, Clone, Copy, PartialEq, Eq, Structural)]
pub struct DirectoryKind;

/// Nothing chosen yet about how a handle is opened.
#[derive(Debug, Clone, Copy, PartialEq, Eq, Structural)]
pub struct UnknownDetails;

/// How a file is opened.
#[derive(Debug, Clone, Copy, PartialEq, Eq, Structural)]
pub struct FileDetails {
    pub flags: OpenOptions,
}

impl FileDetails {
    /// Read-only access.
    pub fn new() -> (r: FileDetails)
        ensures
            r.flags == OpenOptions::spec_read_only(),
    {
        FileDetails { flags: OpenOptions::read_only() }
    }

    /// Append to the file when writing.
    pub fn with_append(self) -> (r: FileDetails)
        ensures
            r.flags.bits == self.flags.bits | APPEND,
    {
        FileDetails { flags: self.flags.with(APPEND) }
    }

    /// Create the file if it doesn't exist.
    pub fn with_create(self) -> (r: FileDetails)
        ensures
            r.flags.bits == self.flags.bits | CREATE,
    {
        FileDetails { flags: self.flags.with(CREATE) }
    }

    /// Fail if the file is to be created and already exists.
    pub fn with_exclusive(self) -> (r: FileDetails)
        ensures
            r.flags.bits == self.flags.bits | EXCLUSIVE,
    {
        FileDetails { flags: self.flags.with(EXCLUSIVE) }
    }

    /// Truncate the file when opening.
    pub fn with_truncate(self) -> (r: FileDetails)
        ensures
            r.flags.bits == self.flags.bits | TRUNCATE,
    {
        FileDetails { flags: self.flags.with(TRUNCATE) }
    }
}

/// How a directory is opened.
#[derive(Debug, Clone, Copy, PartialEq, Eq, Structural)]
pub struct DirectoryDetails {
    /// Whether to make the directory before opening it.
    pub create: bool,
}

impl DirectoryDetails {
    pub fn new() -> (r: DirectoryDetails)
        ensures
            !r.create,
    {
        DirectoryDetails { create: false }
    }

    /// Create the directory if it doesn't exist.
    pub fn with_create(self) -> (r: DirectoryDetails)
        ensures
            r.create,
    {
        DirectoryDetails { create: true }
    }
}

/// Where a handle is opened.
#[derive(Debug, Clone)]
pub enum HandleLocation<H> {
    /// A path, opened directly.
    Path(String),
    /// A name relative to an open directory.
    At { directory: H, filename: String },
}

/// The marker of a file handle opened with the given stat: only a regular
/// file can be opened as a file.
pub fn file_kind_of(stat: &FileStat) -> (r: Result<FileKind, Error>)
    ensures
        stat.kind == FileType::File <==> r is Ok,
        r matches Ok(k) ==> k.optimal_blocksize == stat.optimal_blocksize,
        r matches Err(e) ==> e is NotAFile,
{
    if stat.kind == FileType::File {
        Ok(FileKind { optimal_blocksize: stat.optimal_blocksize })
    } else {
        Err(Error::NotAFile("not a regular file".to_string()))
    }
}

/// Block size assumed when the platform reports none.
pub const DEFAULT_BLOCKSIZE: usize = 4096;
/// Blocks of the optimal size read at once.
pub const BLOCKS_PER_READ: usize = 8;

/// Size of the buffer a file is read through: eight optimal blocks,
/// saturating at the largest size.
pub open spec fn read_block_size_spec(optimal: Option<usize>) -> int {
    let b = match optimal {
        Some(b) => b as int,
        None => DEFAULT_BLOCKSIZE as int,
    };
    if b * 8 > usize::MAX {
        usize::MAX as int
    } else {
        b * 8
    }
}

pub fn read_block_size(optimal: Option<usize>) -> (r: usize)
    ensures
        r == read_block_size_spec(optimal),
{
    let b = match optimal {
        Some(b) => b,
        None => DEFAULT_BLOCKSIZE,
    };
    match b.checked_mul(BLOCKS_PER_READ) {
        Some(x) => x,
        None => usize::MAX,
    }
}

/// What becomes of a handle dropped without being closed.
#[derive(Debug, Clone, Copy, PartialEq, Eq, Structural)]
pub enum DropAction {
    /// Its descriptor and permit go to the close queue.
    Enqueue,
    /// It was already closed; nothing is left to release.
    Nothing,
}

/// What to do with a dropped handle that still holds a descriptor or not.
/// A handle holds its descriptor and its permit together or neither.
pub fn drop_action(has_descriptor: bool, has_permit: bool) -> (r: DropAction)
    requires
        has_descriptor == has_permit,
    ensures
        has_descriptor ==> r == DropAction::Enqueue,
        !has_descriptor ==> r == DropAction::Nothing,
{
    if has_descriptor {
        DropAction::Enqueue
    } else {
        DropAction::Nothing
    }
}

/// Reads a file from its start in chunks the size of a block.
pub struct ReadIterator<P: Platform> {
    handle: P::Handle,
    offset: usize,
    done: bool,
}

impl<P: Platform> ReadIterator<P> {
    /// Offset of the next read.
    pub closed spec fn spec_offset(&self) -> usize {
        self.offset
    }

    /// Whether the iterator has finished.
    pub closed spec fn spec_done(&self) -> bool {
        self.done
    }

    pub closed spec fn spec_handle(&self) -> P::Handle {
        self.handle
    }

    pub fn new(handle: P::Handle) -> (r: ReadIterator<P>)
        ensures
            r.spec_offset() == 0,
            !r.spec_done(),
            r.spec_handle() == handle,
    {
        ReadIterator { handle, offset: 0, done: false }
    }

    pub fn offset(&self) -> (r: usize)
        ensures
            r == self.spec_offset(),
    {
        self.offset
    }

    pub fn is_done(&self) -> (r: bool)
        ensures
            r == self.spec_done(),
    {
        self.done
    }

    /// Reads the next chunk into `block` and returns its length; the chunk
    /// is the start of the block. What comes of the platform's answer is
    /// [`read_step`]'s; after the iteration ends nothing is read.
    pub fn next(&mut self, block: &mut Block) -> (r: Option<Result<usize, Error>>)
        ensures
            old(self).spec_done() ==> r is None && *final(self) == *old(self) && final(block)@
                == old(block)@,
            final(self).spec_handle() == old(self).spec_handle(),
            final(block)@.len() == old(block)@.len(),
            !old(self).spec_done() ==> exists|res: Result<usize, Error>|
                (res matches Ok(n) ==> n <= old(block)@.len()) && (!P::supported() ==> res is Err)
                    && #[trigger] step_outcome(old(self).spec_offset(), old(block)@.len(), res, final(self).spec_offset(), final(self).spec_done(), r),
    {
        if self.done {
            return None;
        }
        let size = block.size();
        let result = P::read(self.handle, block.as_mut(), self.offset);
        let ghost old_offset = self.offset;
        let (offset, done, out) = read_step(self.offset, size, result);
        self.offset = offset;
        self.done = done;
        proof {
            assert(old_offset == old(self).spec_offset());
            assert(result matches Ok(n) ==> n <= old(block)@.len());
            assert(!P::supported() ==> result is Err);
            assert(step_outcome(old(self).spec_offset(), old(block)@.len(), result, self.spec_offset(), self.spec_done(), Some(out)));
        }
        Some(out)
    }
}

/// Whether `offset`, `done` and `r` are what one read of a block of `size`
/// bytes at `old_offset` gives when the platform answered `res`.
pub open spec fn step_outcome(
    old_offset: usize,
    size: nat,
    res: Result<usize, Error>,
    offset: usize,
    done: bool,
    r: Option<Result<usize, Error>>,
) -> bool {
    match res {
        Ok(n) => if old_offset + n <= usize::MAX {
            &&& r == Some(Ok::<usize, Error>(n))
            &&& offset == old_offset + n
            &&& done == (n < size || n == 0)
        } else {
            &&& r matches Some(Err(e)) && e is InvalidData
            &&& offset == old_offset
            &&& done
        },
        Err(e) => {
            &&& r == Some(Err::<usize, Error>(e))
            &&& offset == old_offset
            &&& done
        },
    }
}

/// One step of reading a file in chunks: the new offset, whether reading is
/// done, and what to hand out, given the platform's answer `res` to a read
/// of `size` bytes at `offset`. A chunk shorter than the block, an empty
/// one, an error, or an offset past the largest `usize` ends the reading.
pub fn read_step(offset: usize, size: usize, res: Result<usize, Error>) -> (r: (usize, bool, Result<usize, Error>))
    ensures
        step_outcome(offset, size as nat, res, r.0, r.1, Some(r.2)),
{
    match res {
        Ok(n) => match offset.checked_add(n) {
            Some(next) => (next, n < size || n == 0, Ok(n)),
            None => (offset, true, Err(Error::InvalidData("file offset overflow".to_string()))),
        },
        Err(e) => (offset, true, Err(e)),
    }
}

/// The bytes of `chunks`, one after another.
pub open spec fn concat_chunks(chunks: Seq<Seq<u8>>) -> Seq<u8>
    decreases chunks.len(),
{
    if chunks.len() == 0 {
        Seq::empty()
    } else {
        concat_chunks(chunks.drop_last()) + chunks.last()
    }
}

/// Appends the first `n` bytes of `chunk` to `out`.
pub fn append_chunk(out: &mut Vec<u8>, chunk: &[u8], n: usize)
    requires
        n <= chunk@.len(),
    ensures
        final(out)@ == old(out)@ + chunk@.subrange(0, n as int),
{
    let mut i: usize = 0;
    while i < n
        invariant
            i <= n,
            n <= chunk@.len(),
            out@ == old(out)@ + chunk@.subrange(0, i as int),
        decreases n - i,
    {
        out.push(chunk[i]);
        i = i + 1;
        assert(out@ =~= old(out)@ + chunk@.subrange(0, i as int));
    }
}

/// Reads a whole file from its start through `block`, returning its bytes:
/// the chunks the reader handed out, one after another. Every chunk but
/// the last fills the block, and the last is shorter or empty.
pub fn read_to_end<P: Platform>(handle: P::Handle, block: &mut Block) -> (r: Result<Vec<u8>, Error>)
    ensures
        final(block)@.len() == old(block)@.len(),
        !P::supported() ==> r is Err,
        r matches Ok(v) ==> exists|chunks: Seq<Seq<u8>>| #[trigger] concat_chunks(chunks) == v@ && chunks.len() > 0
            && (forall|i: int| 0 <= i < chunks.len() - 1 ==> (#[trigger] chunks[i]).len() == old(block)@.len() && chunks[i].len() > 0)
            && (chunks.last().len() < old(block)@.len() || chunks.last().len() == 0),
{
    let mut it: ReadIterator<P> = ReadIterator::new(handle);
    let mut out: Vec<u8> = Vec::new();
    let ghost mut chunks: Seq<Seq<u8>> = Seq::empty();
    let ghost size = block@.len();
    while !it.is_done()
        invariant
            block@.len() == size,
            size == old(block)@.len(),
            out@.len() == it.spec_offset(),
            out@ == concat_chunks(chunks),
            forall|i: int| 0 <= i < chunks.len() ==> (#[trigger] chunks[i]).len() == size && chunks[i].len() > 0,
            it.spec_done() ==> false,
            !P::supported() ==> !it.spec_done(),
        decreases (if it.spec_done() { 0int } else { 1int }) + (usize::MAX - it.spec_offset()),
    {
        let ghost off = it.spec_offset();
        match it.next(block) {
            Some(Ok(n)) => {
                let chunk = block.as_ref();
                append_chunk(&mut out, chunk, n);
                proof {
                    let c = chunk@.subrange(0, n as int);
                    assert((chunks.push(c)).drop_last() =~= chunks);
                    chunks = chunks.push(c);
                }
                if it.is_done() {
                    proof {
                        assert(chunks.len() > 0);
                        assert forall|i: int| 0 <= i < chunks.len() - 1 implies (#[trigger] chunks[i]).len() == size && chunks[i].len() > 0 by {
                            assert(chunks[i] == chunks.drop_last()[i]);
                        }
                        assert(chunks.last().len() < size || chunks.last().len() == 0);
                        assert(concat_chunks(chunks) == out@);
                    }
                    return Ok(out);
                }
            },
            Some(Err(e)) => {
                return Err(e);
            },
            None => {},
        }
    }
    Err(Error::InvalidData("read ended without a final chunk".to_string()))
}

/// Opens `location` with `options` through the platform.
fn open_location<P: Platform>(location: HandleLocation<P::Handle>, options: OpenOptions) -> (r: Result<
    P::Handle,
    Error,
>)
    ensures
        !P::supported() ==> r is Err,
{
    match location {
        HandleLocation::Path(path) => {
            let p = P::Path::try_new(path)?;
            P::open(p, options)
        },
        HandleLocation::At { directory, filename } => {
            let name = P::Filename::try_new(filename)?;
            P::openat(directory, name, options)
        },
    }
}

/// Takes a permit and opens `location` read only, without learning what
/// kind of object it is. On failure the permit is returned.
pub fn open_unknown<P: Platform>(ledger: &mut PermitLedger, location: HandleLocation<P::Handle>, details: UnknownDetails) -> (r: Result<
    (P::Handle, UnknownKind),
    Error,
>)
    requires
        old(ledger).wf(),
        old(ledger).available > 0,
    ensures
        !P::supported() ==> r is Err,
        final(ledger).wf(),
        r is Ok ==> *final(ledger) == old(ledger).after(PermitEvent::Acquire),
        r is Err ==> *final(ledger) == old(ledger).after(PermitEvent::Acquire).after(PermitEvent::OpenFailed),
{
    ledger.record(PermitEvent::Acquire);
    match open_location::<P>(location, OpenOptions::read_only()) {
        Ok(h) => Ok((h, UnknownKind)),
        Err(e) => {
            ledger.record(PermitEvent::OpenFailed);
            Err(e)
        },
    }
}

/// Takes a permit, opens `location` as a regular file and stats it.
///
/// A location that is not a regular file fails with `NotAFile`. On any
/// failure the handle, if one was opened, is closed and the permit is
/// returned; on success the permit stays with the handle.
pub fn open_file<P: Platform>(
    ledger: &mut PermitLedger,
    location: HandleLocation<P::Handle>,
    details: FileDetails,
) -> (r: Result<(P::Handle, FileStat), Error>)
    requires
        old(ledger).wf(),
        old(ledger).available > 0,
    ensures
        !P::supported() ==> r is Err,
        final(ledger).wf(),
        r is Ok ==> *final(ledger) == old(ledger).after(PermitEvent::Acquire),
        r is Err ==> *final(ledger) == old(ledger).after(PermitEvent::Acquire).after(PermitEvent::OpenFailed),
        r matches Ok((_, stat)) ==> stat.kind == FileType::File,
{
    ledger.record(PermitEvent::Acquire);
    let handle = match open_location::<P>(location, details.flags) {
        Ok(h) => h,
        Err(e) => {
            ledger.record(PermitEvent::OpenFailed);
            return Err(e);
        },
    };
    let stat = match P::fstat(handle) {
        Ok(st) => st,
        Err(e) => {
            let _ = P::close(handle);
            ledger.record(PermitEvent::OpenFailed);
            return Err(e);
        },
    };
    match file_kind_of(&stat) {
        Ok(_) => Ok((handle, stat)),
        Err(e) => {
            let _ = P::close(handle);
            ledger.record(PermitEvent::OpenFailed);
            Err(e)
        },
    }
}

/// Takes a permit and opens `location` as a directory, making it first when
/// `details` asks for that.
///
/// On any failure the permit is returned; on success it stays with the handle.
pub fn open_directory<P: Platform>(
    ledger: &mut PermitLedger,
    location: HandleLocation<P::Handle>,
    details: DirectoryDetails,
) -> (r: Result<P::Handle, Error>)
    requires
        old(ledger).wf(),
        old(ledger).available > 0,
    ensures
        !P::supported() ==> r is Err,
        final(ledger).wf(),
        r is Ok ==> *final(ledger) == old(ledger).after(PermitEvent::Acquire),
        r is Err ==> *final(ledger) == old(ledger).after(PermitEvent::Acquire).after(PermitEvent::OpenFailed),
{
    ledger.record(PermitEvent::Acquire);
    if details.create {
        let made = match &location {
            HandleLocation::Path(path) => match P::Path::try_new(path.clone()) {
                Ok(p) => P::mkdir(p),
                Err(e) => Err(e),
            },
            HandleLocation::At { directory, filename } => match P::Filename::try_new(filename.clone()) {
                Ok(name) => P::mkdirat(*directory, name),
                Err(e) => Err(e),
            },
        };
        if let Err(e) = made {
            ledger.record(PermitEvent::OpenFailed);
            return Err(e);
        }
    }
    match open_location::<P>(location, OpenOptions::directory()) {
        Ok(h) => Ok(h),
        Err(e) => {
            ledger.record(PermitEvent::OpenFailed);
            Err(e)
        },
    }
}

/// Closes an open handle and returns its permit, whether or not the
/// platform's close succeeds.
pub fn close_handle<P: Platform>(ledger: &mut PermitLedger, handle: P::Handle) -> (r: Result<(), Error>)
    requires
        old(ledger).wf(),
        old(ledger).open > 0,
    ensures
        final(ledger).wf(),
        *final(ledger) == old(ledger).after(PermitEvent::Close),
        !P::supported() ==> r is Err,
{
    let result = P::close(handle);
    ledger.record(PermitEvent::Close);
    result
}

/// What the deferred close worker does with a handle that was dropped
/// without being closed: it closes the handle and returns its permit,
/// whether or not the close succeeds. The close result is handed back for
/// logging; nobody is left to receive it as an error.
pub fn close_dropped<P: Platform>(ledger: &mut PermitLedger, handle: P::Handle) -> (r: Result<(), Error>)
    requires
        old(ledger).wf(),
        old(ledger).queued > 0,
    ensures
        final(ledger).wf(),
        *final(ledger) == old(ledger).after(PermitEvent::Drain),
        !P::supported() ==> r is Err,
{
    let result = P::close(handle);
    ledger.record(PermitEvent::Drain);
    result
}

} // verus!
