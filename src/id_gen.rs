//! Sequential identifier allocation.

use vstd::prelude::*;

verus! {

/// Hands out identifiers built from consecutive `u64` values.
#[derive(Debug)]
pub struct Gen<Id> {
    next: u64,
    phantom: core::marker::PhantomData<Id>,
}

impl<Id> Gen<Id> {
    /// The value that the next call of `next` will use.
    pub closed spec fn next_value(&self) -> u64 {
        self.next
    }

    /// A generator whose first identifier is built from `start`.
    pub fn from_start(start: u64) -> (r: Gen<Id>)
        ensures
            r.next_value() == start,
    {
        Gen { next: start, phantom: core::marker::PhantomData }
    }

    /// The value that the next call of `next` will use.
    pub fn peek(&self) -> (r: u64)
        ensures
            r == self.next_value(),
    {
        self.next
    }
}

impl<Id: From<u64>> Gen<Id> {
    /// Allocates the next identifier.
    pub fn next(&mut self) -> (r: Id)
        requires
            old(self).next_value() < u64::MAX,
        ensures
            final(self).next_value() == old(self).next_value() + 1,
            call_ensures(Id::from, (old(self).next_value(),), r),
    {
        let id = self.next;
        self.next = id + 1;
        Id::from(id)
    }
}

/// ID of a file in the build graph.
#[derive(Debug, Clone, Copy, PartialEq, Eq, PartialOrd, Ord, Structural)]
pub struct FileId(pub u64);

/// ID of a glob in the build graph.
#[derive(Debug, Clone, Copy, PartialEq, Eq, PartialOrd, Ord, Structural)]
pub struct GlobId(pub u64);

/// ID of a set of sources produced by another build target.
#[derive(Debug, Clone, Copy, PartialEq, Eq, PartialOrd, Ord, Structural)]
pub struct DynamicSourcesId(pub u64);

/// ID of a build target in the build graph.
#[derive(Debug, Clone, Copy, PartialEq, Eq, PartialOrd, Ord, Structural)]
pub struct BuildTargetId(pub u64);

impl From<u64> for FileId {
    fn from(value: u64) -> (r: FileId) {
        FileId(value)
    }
}

impl vstd::std_specs::convert::FromSpecImpl<u64> for FileId {
    open spec fn obeys_from_spec() -> bool {
        true
    }

    open spec fn from_spec(v: u64) -> FileId {
        FileId(v)
    }
}

impl From<u64> for GlobId {
    fn from(value: u64) -> (r: GlobId) {
        GlobId(value)
    }
}

impl vstd::std_specs::convert::FromSpecImpl<u64> for GlobId {
    open spec fn obeys_from_spec() -> bool {
        true
    }

    open spec fn from_spec(v: u64) -> GlobId {
        GlobId(v)
    }
}

impl From<u64> for DynamicSourcesId {
    fn from(value: u64) -> (r: DynamicSourcesId) {
        DynamicSourcesId(value)
    }
}

impl vstd::std_specs::convert::FromSpecImpl<u64> for DynamicSourcesId {
    open spec fn obeys_from_spec() -> bool {
        true
    }

    open spec fn from_spec(v: u64) -> DynamicSourcesId {
        DynamicSourcesId(v)
    }
}

impl From<u64> for BuildTargetId {
    fn from(value: u64) -> (r: BuildTargetId) {
        BuildTargetId(value)
    }
}

impl vstd::std_specs::convert::FromSpecImpl<u64> for BuildTargetId {
    open spec fn obeys_from_spec() -> bool {
        true
    }

    open spec fn from_spec(v: u64) -> BuildTargetId {
        BuildTargetId(v)
    }
}

} // verus!
