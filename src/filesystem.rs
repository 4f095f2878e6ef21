//! Reusable read buffers, and the ledger of permits that bounds how many
//! handles are open at once.

use vstd::prelude::*;

verus! {

/// A reusable buffer of fixed size for reading the contents of a file.
#[derive(Debug)]
pub struct Block {
    inner: Vec<u8>,
}

/// `n` zero bytes.
pub open spec fn zeros(n: nat) -> Seq<u8> {
    Seq::new(n, |i: int| 0u8)
}

impl View for Block {
    type V = Seq<u8>;

    closed spec fn view(&self) -> Seq<u8> {
        self.inner@
    }
}

impl Block {
    /// Creates a new block of `size` zero bytes.
    pub fn new(size: usize) -> (r: Block)
        ensures
            r@ == zeros(size as nat),
    {
        let mut inner: Vec<u8> = Vec::new();
        let mut i: usize = 0;
        while i < size
            invariant
                i <= size,
                inner@ == zeros(i as nat),
            decreases size - i,
        {
            inner.push(0u8);
            i = i + 1;
            assert(inner@ =~= zeros(i as nat));
        }
        Block { inner }
    }

    pub fn size(&self) -> (r: usize)
        ensures
            r == self@.len(),
    {
        self.inner.len()
    }

    /// Zeroes the block in place, keeping its size.
    pub fn clear(&mut self)
        ensures
            final(self)@ == zeros(old(self)@.len()),
    {
        let n = self.inner.len();
        let mut i: usize = 0;
        while i < n
            invariant
                i <= n,
                self.inner@.len() == n,
                forall|j: int| 0 <= j < i ==> self.inner@[j] == 0u8,
            decreases n - i,
        {
            self.inner.set(i, 0u8);
            i = i + 1;
        }
        assert(self.inner@ =~= zeros(n as nat));
    }

    pub fn as_ref(&self) -> (r: &[u8])
        ensures
            r@ == self@,
    {
        self.inner.as_slice()
    }

    pub fn as_mut(&mut self) -> (r: &mut [u8])
        ensures
            r@ == old(self)@,
            final(self)@ == final(r)@,
    {
        self.inner.as_mut_slice()
    }
}

/// Index of the first entry of `blocks` kept for `size`.
pub open spec fn find_block(blocks: Seq<(usize, Block)>, size: usize) -> Option<int>
    decreases blocks.len(),
{
    if blocks.len() == 0 {
        None
    } else if blocks[0].0 == size {
        Some(0)
    } else {
        match find_block(blocks.drop_first(), size) {
            Some(i) => Some(i + 1),
            None => None,
        }
    }
}

proof fn lemma_find_block(blocks: Seq<(usize, Block)>, size: usize)
    ensures
        find_block(blocks, size) matches Some(i) ==> 0 <= i < blocks.len() && blocks[i].0
            == size,
        find_block(blocks, size) is None ==> forall|j: int|
            0 <= j < blocks.len() ==> blocks[j].0 != size,
        forall|i: int|
            0 <= i < blocks.len() && blocks[i].0 == size && (forall|j: int|
                0 <= j < i ==> blocks[j].0 != size) ==> find_block(blocks, size) == Some(i),
    decreases blocks.len(),
{
    if blocks.len() > 0 {
        lemma_find_block(blocks.drop_first(), size);
        assert forall|i: int|
            0 <= i < blocks.len() && blocks[i].0 == size && (forall|j: int|
                0 <= j < i ==> blocks[j].0 != size) implies find_block(blocks, size) == Some(
            i,
        ) by {
            if i > 0 {
                assert(blocks[0].0 != size);
                assert(blocks.drop_first()[i - 1] == blocks[i]);
                assert forall|j: int| 0 <= j < i - 1 implies blocks.drop_first()[j].0 != size by {
                    assert(blocks.drop_first()[j] == blocks[j + 1]);
                }
            }
        }
        assert forall|j: int| 0 <= j < blocks.len() && find_block(blocks, size) is None implies blocks[j].0 != size by {
            if j > 0 {
                assert(blocks.drop_first()[j - 1] == blocks[j]);
            }
        }
    }
}

/// Whether two sequences of entries hold the same sizes at the same places.
pub open spec fn same_keys(a: Seq<(usize, Block)>, b: Seq<(usize, Block)>) -> bool {
    a.len() == b.len() && forall|j: int| 0 <= j < a.len() ==> a[j].0 == b[j].0
}

proof fn lemma_find_block_same_keys(a: Seq<(usize, Block)>, b: Seq<(usize, Block)>, size: usize)
    requires
        same_keys(a, b),
    ensures
        find_block(a, size) == find_block(b, size),
    decreases a.len(),
{
    if a.len() > 0 {
        assert(same_keys(a.drop_first(), b.drop_first()));
        lemma_find_block_same_keys(a.drop_first(), b.drop_first(), size);
    }
}

proof fn lemma_find_block_push(a: Seq<(usize, Block)>, e: (usize, Block), size: usize)
    requires
        e.0 != size,
    ensures
        find_block(a.push(e), size) == find_block(a, size),
    decreases a.len(),
{
    if a.len() > 0 {
        assert(a.push(e).drop_first() =~= a.drop_first().push(e));
        assert(a.push(e)[0] == a[0]);
        lemma_find_block_push(a.drop_first(), e, size);
    } else {
        assert(a.push(e).drop_first() =~= Seq::<(usize, Block)>::empty());
        assert(find_block(a.push(e).drop_first(), size) is None);
    }
}

/// Pool of [`Block`]s used when reading files, one block per size.
#[derive(Debug)]
pub struct BlockPool {
    blocks: Vec<(usize, Block)>,
}

impl BlockPool {
    /// The pooled blocks with the size each was requested for.
    pub closed spec fn entries(&self) -> Seq<(usize, Block)> {
        self.blocks@
    }

    /// The contents of the block kept for `size`, if there is one.
    pub open spec fn block_for(&self, size: usize) -> Option<Seq<u8>> {
        match find_block(self.entries(), size) {
            Some(i) => Some(self.entries()[i].1@),
            None => None,
        }
    }

    pub fn new() -> (r: BlockPool)
        ensures
            forall|size: usize| r.block_for(size) is None,
    {
        BlockPool { blocks: Vec::new() }
    }

    /// Gets the block of the given size, creating a zeroed one the first time.
    pub fn get_block(&mut self, size: usize) -> (r: &mut Block)
        ensures
            match old(self).block_for(size) {
                Some(b) => r@ == b,
                None => r@ == zeros(size as nat),
            },
            final(self).block_for(size) == Some(final(r)@),
            forall|other: usize| other != size ==> final(self).block_for(other) == old(self).block_for(other),
    {
        let mut i: usize = 0;
        let n = self.blocks.len();
        while i < n && self.blocks[i].0 != size
            invariant
                i <= n,
                n == self.blocks@.len(),
                forall|j: int| 0 <= j < i ==> self.blocks@[j].0 != size,
            decreases n - i,
        {
            i = i + 1;
        }
        proof {
            lemma_find_block(self.blocks@, size);
        }
        if i == n {
            self.blocks.push((size, Block::new(size)));
            proof {
                lemma_find_block(self.blocks@, size);
                assert forall|other: usize| other != size implies find_block(self.blocks@, other)
                    == find_block(old(self).blocks@, other) by {
                    assert(self.blocks@ == old(self).blocks@.push(self.blocks@.last()));
                    lemma_find_block_push(old(self).blocks@, self.blocks@.last(), other);
                }
            }
        }
        let ghost cur = self.blocks@;
        proof {
            lemma_find_block(cur, size);
            assert forall|b: Seq<(usize, Block)>, s: usize| same_keys(cur, b) implies #[trigger] find_block(b, s) == find_block(cur, s) by {
                lemma_find_block_same_keys(cur, b, s);
            }
            assert forall|s: usize| #[trigger] find_block(cur, s) matches Some(j) ==> 0 <= j < cur.len() && cur[j].0 == s by {
                lemma_find_block(cur, s);
            }
        }
        &mut self.blocks[i].1
    }
}

/// Something that happens to the permits of a [`PermitLedger`].
#[derive(Debug, Clone, Copy, PartialEq, Eq, Structural)]
pub enum PermitEvent {
    /// A handle takes a permit before it is opened.
    Acquire,
    /// The open that held a permit failed, and the permit comes back.
    OpenFailed,
    /// A handle is closed explicitly; its permit comes back.
    Close,
    /// A handle is dropped without being closed and waits in the close queue.
    Abandon,
    /// The deferred close worker closes one queued handle; its permit comes back.
    Drain,
}

/// Counts of the permits that bound how many handles are open at once.
///
/// Every permit is at each moment in exactly one place: available, held by
/// an open handle, or held by a dropped handle waiting in the close queue.
#[derive(Debug, Clone, Copy, PartialEq, Eq, Structural)]
pub struct PermitLedger {
    pub capacity: usize,
    pub available: usize,
    pub open: usize,
    pub queued: usize,
}

impl PermitLedger {
    pub open spec fn wf(self) -> bool {
        self.available + self.open + self.queued == self.capacity
    }

    /// Whether `e` can happen in this state; an event that cannot is refused
    /// and leaves the ledger as it is.
    pub open spec fn allows(self, e: PermitEvent) -> bool {
        match e {
            PermitEvent::Acquire => self.available > 0,
            PermitEvent::OpenFailed | PermitEvent::Close | PermitEvent::Abandon => self.open > 0,
            PermitEvent::Drain => self.queued > 0,
        }
    }

    /// The ledger after `e`.
    pub open spec fn after(self, e: PermitEvent) -> PermitLedger {
        if !self.allows(e) {
            self
        } else {
            match e {
                PermitEvent::Acquire => PermitLedger {
                    available: (self.available - 1) as usize,
                    open: (self.open + 1) as usize,
                    ..self
                },
                PermitEvent::OpenFailed | PermitEvent::Close => PermitLedger {
                    available: (self.available + 1) as usize,
                    open: (self.open - 1) as usize,
                    ..self
                },
                PermitEvent::Abandon => PermitLedger {
                    open: (self.open - 1) as usize,
                    queued: (self.queued + 1) as usize,
                    ..self
                },
                PermitEvent::Drain => PermitLedger {
                    available: (self.available + 1) as usize,
                    queued: (self.queued - 1) as usize,
                    ..self
                },
            }
        }
    }

    /// The ledger after each of `events` in turn.
    pub open spec fn after_all(self, events: Seq<PermitEvent>) -> PermitLedger
        decreases events.len(),
    {
        if events.len() == 0 {
            self
        } else {
            self.after(events[0]).after_all(events.drop_first())
        }
    }

    /// A ledger of `capacity` permits, all available.
    pub fn new(capacity: usize) -> (r: PermitLedger)
        ensures
            r.wf(),
            r == (PermitLedger { capacity, available: capacity, open: 0, queued: 0 }),
    {
        PermitLedger { capacity, available: capacity, open: 0, queued: 0 }
    }

    pub fn available_permits(&self) -> (r: usize)
        ensures
            r == self.available,
    {
        self.available
    }

    /// Records `e`, returning whether it could happen.
    pub fn record(&mut self, e: PermitEvent) -> (r: bool)
        requires
            old(self).wf(),
        ensures
            r == old(self).allows(e),
            *final(self) == old(self).after(e),
            final(self).wf(),
    {
        match e {
            PermitEvent::Acquire => {
                if self.available == 0 {
                    return false;
                }
                self.available = self.available - 1;
                self.open = self.open + 1;
            },
            PermitEvent::OpenFailed | PermitEvent::Close => {
                if self.open == 0 {
                    return false;
                }
                self.open = self.open - 1;
                self.available = self.available + 1;
            },
            PermitEvent::Abandon => {
                if self.open == 0 {
                    return false;
                }
                self.open = self.open - 1;
                self.queued = self.queued + 1;
            },
            PermitEvent::Drain => {
                if self.queued == 0 {
                    return false;
                }
                self.queued = self.queued - 1;
                self.available = self.available + 1;
            },
        }
        true
    }

    /// Takes a permit for a handle about to be opened, if one is available.
    pub fn try_acquire(&mut self) -> (r: bool)
        requires
            old(self).wf(),
        ensures
            r == (old(self).available > 0),
            *final(self) == old(self).after(PermitEvent::Acquire),
            final(self).wf(),
    {
        self.record(PermitEvent::Acquire)
    }

    /// The deferred close worker closes every queued handle.
    pub fn drain_all(&mut self)
        requires
            old(self).wf(),
        ensures
            final(self).wf(),
            final(self).queued == 0,
            final(self).open == old(self).open,
            final(self).available == old(self).available + old(self).queued,
    {
        while self.queued > 0
            invariant
                self.wf(),
                self.open == old(self).open,
                self.available + self.queued == old(self).available + old(self).queued,
                self.capacity == old(self).capacity,
            decreases self.queued,
        {
            self.record(PermitEvent::Drain);
        }
    }
}

/// No permit is ever lost or released twice: whatever happens to a
/// well-formed ledger, it stays well formed, and once no handle is open or
/// waiting to be closed, every permit is available again.
pub proof fn lemma_permits_conserved(l: PermitLedger, events: Seq<PermitEvent>)
    requires
        l.wf(),
    ensures
        l.after_all(events).wf(),
        l.after_all(events).capacity == l.capacity,
        l.after_all(events).open == 0 && l.after_all(events).queued == 0 ==> l.after_all(
            events,
        ).available == l.capacity,
    decreases events.len(),
{
    if events.len() > 0 {
        lemma_permits_conserved(l.after(events[0]), events.drop_first());
    }
}

} // verus!
