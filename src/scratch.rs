//! Scratch space: randomly named files and directories that are either
//! moved to their final place with one atomic rename, or discarded.

use vstd::prelude::*;
use crate::error::Error;
use crate::filesystem::{PermitEvent, PermitLedger};
use crate::handle::{close_handle, open_directory, open_file, DirectoryDetails, FileDetails, HandleLocation};
use crate::tree::join_path;
use crate::platform::{Platform, PlatformFilename};
use crate::types::{FileStat, FileType};

verus! {

/// Name of the scratch directory beneath the root it is made in.
pub const SCRATCH_DIRECTORY_NAME: &'static str = "scratch";
/// Name of the repositories directory beneath its root.
pub const REPOSITORY_DIRECTORY_NAME: &'static str = "repositories";
/// Extended attribute naming the rule set that created a scratch resource.
pub const SCRATCH_XATTR_TAG_RULESET_NAME: &'static str = "org.pb.scratch.rule_set";
/// Extended attribute holding a free-text comment on a scratch resource.
pub const SCRATCH_XATTR_TAG_COMMENT_NAME: &'static str = "org.pb.scratch.comment";

/// Opens the scratch directory beneath `root`.
pub fn open_scratch_directory<P: Platform>(ledger: &mut PermitLedger, root: &String) -> (r: Result<
    P::Handle,
    Error,
>)
    requires
        old(ledger).wf(),
        old(ledger).available > 0,
    ensures
        final(ledger).wf(),
        r is Ok ==> *final(ledger) == old(ledger).after(PermitEvent::Acquire),
        r is Err ==> *final(ledger) == old(ledger).after(PermitEvent::Acquire).after(PermitEvent::OpenFailed),
{
    let name = SCRATCH_DIRECTORY_NAME.to_string();
    let path = join_path(root, &name);
    open_directory::<P>(ledger, HandleLocation::Path(path), DirectoryDetails::new())
}

/// Opens the repositories directory beneath `root`, where persisted
/// downloads are renamed to. The handle to `root` is closed again; only the
/// handle to the repositories directory keeps its permit.
pub fn open_repository_directory<P: Platform>(ledger: &mut PermitLedger, root: String) -> (r: Result<
    P::Handle,
    Error,
>)
    requires
        old(ledger).wf(),
        old(ledger).available > 1,
    ensures
        final(ledger).wf(),
        final(ledger).capacity == old(ledger).capacity,
        final(ledger).queued == old(ledger).queued,
        r is Ok ==> final(ledger).open == old(ledger).open + 1,
        r is Err ==> final(ledger).open == old(ledger).open,
{
    let root_handle = open_directory::<P>(ledger, HandleLocation::Path(root), DirectoryDetails::new())?;
    let location = HandleLocation::At { directory: root_handle, filename: REPOSITORY_DIRECTORY_NAME.to_string() };
    let opened = open_directory::<P>(ledger, location, DirectoryDetails::new());
    let _ = close_handle::<P>(ledger, root_handle);
    opened
}

/// Relies on uuid::Uuid::new_v4 and its hyphenated `Display`: a random
/// name of 36 characters.
#[verifier::external_body]
fn random_name() -> (r: String)
    ensures
        r@.len() == 36,
{
    uuid::Uuid::new_v4().to_string()
}

/// A resource in the scratch directory.
#[derive(Debug)]
pub struct ScratchHandle<H> {
    /// Handle to the resource.
    inner: H,
    /// Name of the resource in the scratch directory.
    filename: String,
}

impl<H> ScratchHandle<H> {
    pub closed spec fn spec_filename(&self) -> Seq<char> {
        self.filename@
    }

    pub closed spec fn spec_inner(&self) -> H {
        self.inner
    }

    pub fn inner(&self) -> (r: &H)
        ensures
            *r == self.spec_inner(),
    {
        &self.inner
    }

    pub fn filename(&self) -> (r: &String)
        ensures
            r@ == self.spec_filename(),
    {
        &self.filename
    }
}

/// Creates a new randomly named file in the scratch directory `root`.
pub fn scratch_file<P: Platform>(ledger: &mut PermitLedger, root: P::Handle) -> (r: Result<
    (ScratchHandle<P::Handle>, FileStat),
    Error,
>)
    requires
        old(ledger).wf(),
        old(ledger).available > 0,
    ensures
        final(ledger).wf(),
        r is Ok ==> *final(ledger) == old(ledger).after(PermitEvent::Acquire),
        r is Err ==> *final(ledger) == old(ledger).after(PermitEvent::Acquire).after(PermitEvent::OpenFailed),
        r matches Ok((h, stat)) ==> h.spec_filename().len() == 36 && stat.kind == FileType::File,
        !P::supported() ==> r is Err,
{
    let filename = random_name();
    let location = HandleLocation::At { directory: root, filename: filename.clone() };
    let (inner, stat) = open_file::<P>(ledger, location, FileDetails::new().with_create())?;
    Ok((ScratchHandle { inner, filename }, stat))
}

/// Creates a new randomly named directory in the scratch directory `root`.
pub fn scratch_directory<P: Platform>(ledger: &mut PermitLedger, root: P::Handle) -> (r: Result<
    ScratchHandle<P::Handle>,
    Error,
>)
    requires
        old(ledger).wf(),
        old(ledger).available > 0,
    ensures
        final(ledger).wf(),
        r is Ok ==> *final(ledger) == old(ledger).after(PermitEvent::Acquire),
        r is Err ==> *final(ledger) == old(ledger).after(PermitEvent::Acquire).after(PermitEvent::OpenFailed),
        r matches Ok(h) ==> h.spec_filename().len() == 36,
        !P::supported() ==> r is Err,
{
    let filename = random_name();
    let location = HandleLocation::At { directory: root, filename: filename.clone() };
    let inner = open_directory::<P>(ledger, location, DirectoryDetails::new().with_create())?;
    Ok(ScratchHandle { inner, filename })
}

/// Sets the extended attribute `name` of a scratch resource to `value`.
fn tag<P: Platform>(handle: &ScratchHandle<P::Handle>, name: &str, value: &str) -> (r: Result<(), Error>)
    ensures
        !P::supported() ==> r is Err,
{
    let attr = P::Filename::try_new(name.to_string())?;
    P::fsetxattr(handle.inner, attr, value.as_bytes())
}

/// Tags a scratch resource with the rule set that created it.
pub fn tag_ruleset<P: Platform>(handle: &ScratchHandle<P::Handle>, name: &str) -> (r: Result<(), Error>)
    ensures
        !P::supported() ==> r is Err,
{
    tag::<P>(handle, SCRATCH_XATTR_TAG_RULESET_NAME, name)
}

/// Tags a scratch resource with a general comment.
pub fn tag_comment<P: Platform>(handle: &ScratchHandle<P::Handle>, comment: &str) -> (r: Result<(), Error>)
    ensures
        !P::supported() ==> r is Err,
{
    tag::<P>(handle, SCRATCH_XATTR_TAG_COMMENT_NAME, comment)
}

/// Durably persists a scratch resource: one atomic rename moves it from the
/// scratch directory `root` to `to_filename` in the directory `to_handle`.
/// The resource's handle stays open and is handed back.
pub fn persistat<P: Platform>(
    handle: ScratchHandle<P::Handle>,
    root: P::Handle,
    to_handle: P::Handle,
    to_filename: String,
) -> (r: Result<P::Handle, Error>)
    ensures
        r matches Ok(h) ==> h == handle.spec_inner(),
        !P::supported() ==> r is Err,
{
    let from = P::Filename::try_new(handle.filename)?;
    let to = P::Filename::try_new(to_filename)?;
    P::renameat(root, from, to_handle, to)?;
    Ok(handle.inner)
}

} // verus!
