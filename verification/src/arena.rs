//! The bump allocator over a region's storage.

use vstd::prelude::*;
use crate::align::{is_aligned, is_pow2, padding, padding_for};
use crate::region::{OutOfMemory, RegionStorage};

verus! {

/// A byte range handed out by an arena: `size` bytes that start `offset`
/// bytes into the region, which is at `address` in memory.
#[derive(Clone, Copy, Debug, PartialEq, Eq, Structural)]
pub struct Allocation {
    pub offset: usize,
    pub address: usize,
    pub size: usize,
}

impl Allocation {
    /// The offset just past the last byte of the range.
    pub open spec fn end(self) -> int {
        self.offset + self.size
    }

    /// The byte at offset `i` of the region belongs to the range.
    pub open spec fn contains(self, i: int) -> bool {
        self.offset <= i < self.end()
    }

    /// The range ends where `later` starts or before.
    pub open spec fn precedes(self, later: Allocation) -> bool {
        self.end() <= later.offset
    }

    /// One of the two ranges ends before the other starts.
    pub open spec fn disjoint(self, other: Allocation) -> bool {
        self.precedes(other) || other.precedes(self)
    }
}

/// Why an allocation was refused.
#[derive(Clone, Copy, Debug, PartialEq, Eq, Structural)]
pub enum AllocError {
    /// Padding and size together exceed what is left of the region.
    OutOfSpace,
    /// The alignment asked for is not a power of two.
    InvalidAlignment,
}

/// What an arena stands for: the region's placement and length, the cursor,
/// and every range handed out so far, oldest first.
pub ghost struct ArenaView {
    pub base: nat,
    pub capacity: nat,
    pub offset: nat,
    pub issued: Seq<Allocation>,
}

impl ArenaView {
    /// An arena over `capacity` bytes at `base` from which nothing was taken.
    pub open spec fn fresh(base: nat, capacity: nat) -> ArenaView {
        ArenaView { base, capacity, offset: 0, issued: Seq::empty() }
    }

    /// The range lies below the cursor and its address is that of its offset.
    pub open spec fn covers(self, a: Allocation) -> bool {
        a.end() <= self.offset && a.address == self.base + a.offset
    }

    /// The cursor is within the region, the region within the address space,
    /// and the ranges handed out lie below the cursor, one after the other in
    /// the order they were handed out.
    pub open spec fn wf(self) -> bool {
        &&& self.offset <= self.capacity
        &&& self.base + self.capacity <= usize::MAX
        &&& forall|i: int| 0 <= i < self.issued.len() ==> self.covers(#[trigger] self.issued[i])
        &&& forall|i: int, j: int|
            0 <= i < j < self.issued.len() ==> (#[trigger] self.issued[i]).precedes(
                #[trigger] self.issued[j],
            )
    }

    /// The address of the first byte not yet handed out.
    pub open spec fn cursor_address(self) -> nat {
        self.base + self.offset
    }

    /// The bytes between the cursor and the next address that is a multiple
    /// of `alignment`.
    pub open spec fn gap(self, alignment: usize) -> nat {
        padding(self.cursor_address() as int, alignment as int) as nat
    }

    /// The bytes from the cursor to the end of the region.
    pub open spec fn remaining(self) -> int {
        self.capacity - self.offset
    }

    /// Padding and size fit into what is left.
    pub open spec fn admits(self, size: usize, alignment: usize) -> bool {
        self.gap(alignment) + size <= self.remaining()
    }

    /// The range that a request is given when it is admitted: it starts at
    /// the first aligned address from the cursor on.
    pub open spec fn next(self, size: usize, alignment: usize) -> Allocation {
        Allocation {
            offset: (self.offset + self.gap(alignment)) as usize,
            address: (self.cursor_address() + self.gap(alignment)) as usize,
            size,
        }
    }

    /// What a request returns.
    pub open spec fn outcome(self, size: usize, alignment: usize) -> Result<Allocation, AllocError> {
        if !is_pow2(alignment as int) {
            Err(AllocError::InvalidAlignment)
        } else if !self.admits(size, alignment) {
            Err(AllocError::OutOfSpace)
        } else {
            Ok(self.next(size, alignment))
        }
    }

    /// The arena after a request: unchanged when the request was refused,
    /// else with the cursor past the new range and the range recorded.
    pub open spec fn after(self, size: usize, alignment: usize) -> ArenaView {
        match self.outcome(size, alignment) {
            Ok(a) => ArenaView {
                offset: self.offset + self.gap(alignment) + size as nat,
                issued: self.issued.push(a),
                ..self
            },
            Err(_) => self,
        }
    }
}

/// A request leaves a valid arena valid. When it is admitted, the new range
/// starts at or after the old cursor, at the address of its offset, ends at
/// the new cursor and within the region, and comes after every earlier range.
pub proof fn lemma_allocate_keeps_wf(arena: ArenaView, size: usize, alignment: usize)
    requires
        arena.wf(),
    ensures
        arena.after(size, alignment).wf(),
        arena.outcome(size, alignment) matches Ok(a) ==> {
            &&& a.offset == arena.offset + arena.gap(alignment)
            &&& a.address == arena.cursor_address() + arena.gap(alignment)
            &&& a.size == size
            &&& a.end() == arena.after(size, alignment).offset
            &&& a.end() <= arena.capacity
            &&& forall|i: int|
                0 <= i < arena.issued.len() ==> (#[trigger] arena.issued[i]).precedes(a)
        },
{
    if let Ok(a) = arena.outcome(size, alignment) {
        let next = arena.after(size, alignment);
        assert(a.offset == arena.offset + arena.gap(alignment));
        assert(a.address == arena.cursor_address() + arena.gap(alignment));
        assert forall|i: int| 0 <= i < arena.issued.len() implies (#[trigger] arena.issued[i]).precedes(
            a,
        ) by {
            assert(arena.covers(arena.issued[i]));
        }
        assert forall|i: int| 0 <= i < next.issued.len() implies next.covers(
            #[trigger] next.issued[i],
        ) by {
            if i < arena.issued.len() {
                assert(arena.covers(arena.issued[i]));
            }
        }
        assert forall|i: int, j: int| 0 <= i < j < next.issued.len() implies (
        #[trigger] next.issued[i]).precedes(#[trigger] next.issued[j]) by {
            if j < arena.issued.len() {
                assert(arena.issued[i].precedes(arena.issued[j]));
            } else {
                assert(arena.issued[i].precedes(a));
            }
        }
    }
}

/// A bump allocator over one region. It keeps the region's storage and a
/// cursor that only moves forward; ranges are never taken back one by one.
pub struct Arena {
    storage: RegionStorage,
    offset: usize,
    issued: Ghost<Seq<Allocation>>,
}

impl View for Arena {
    type V = ArenaView;

    closed spec fn view(&self) -> ArenaView {
        ArenaView {
            base: self.storage@.base,
            capacity: self.storage@.bytes.len(),
            offset: self.offset as nat,
            issued: self.issued@,
        }
    }
}

impl Arena {
    /// The arena's state is a valid one.
    pub open spec fn wf(&self) -> bool {
        self@.wf()
    }

    /// An arena over `storage`, with the cursor at its start.
    pub(crate) fn new(storage: RegionStorage) -> (arena: Arena)
        requires
            storage.wf(),
        ensures
            arena.wf(),
            arena@ == ArenaView::fresh(storage@.base, storage@.bytes.len()),
    {
        Arena { storage, offset: 0, issued: Ghost(Seq::empty()) }
    }

    /// Opens a region of `bytes` bytes, hands `k` an arena over it with the
    /// cursor at the start, and returns what `k` returns. The arena is lent
    /// to `k` for the call alone and the region is released when `k` is done.
    /// Where the region's storage cannot be had, `k` is not called; an empty
    /// region can always be had, one of more than `isize::MAX` bytes never.
    pub fn with<R>(bytes: usize, k: impl FnOnce(&mut Arena) -> R) -> (res: Result<R, OutOfMemory>)
        requires
            forall|arena: &mut Arena|
                arena.wf() && arena@ == ArenaView::fresh(arena@.base, bytes as nat)
                    ==> #[trigger] call_requires(k, (arena,)),
        ensures
            bytes == 0 ==> res is Ok,
            bytes > isize::MAX ==> res is Err,
            res matches Ok(r) ==> exists|arena: &mut Arena|
                arena.wf() && arena@ == ArenaView::fresh(arena@.base, bytes as nat)
                    && #[trigger] call_ensures(k, (arena,), r),
    {
        match RegionStorage::create(bytes) {
            Ok(storage) => {
                let r = Arena::with_storage(storage, k);
                let res = Ok(r);
                assert(res->Ok_0 == r);
                res
            },
            Err(e) => Err(e),
        }
    }

    /// Hands `k` an arena over `storage`, with the cursor at the start, and
    /// returns what `k` returns. The arena is lent to `k` for the call alone
    /// and the storage is released when `k` is done.
    pub fn with_storage<R>(storage: RegionStorage, k: impl FnOnce(&mut Arena) -> R) -> (r: R)
        requires
            storage.wf(),
            forall|arena: &mut Arena|
                arena.wf() && arena@ == ArenaView::fresh(storage@.base, storage@.bytes.len())
                    ==> #[trigger] call_requires(k, (arena,)),
        ensures
            exists|arena: &mut Arena|
                arena.wf() && arena@ == ArenaView::fresh(storage@.base, storage@.bytes.len())
                    && #[trigger] call_ensures(k, (arena,), r),
    {
        let mut arena = Arena::new(storage);
        k(&mut arena)
    }

    /// Takes `size` bytes at the next multiple of `alignment` from the
    /// cursor on. An alignment that is no power of two is refused, and so is
    /// a request whose padding and size exceed what is left; a refusal
    /// leaves the arena as it was.
    pub fn allocate(&mut self, size: usize, alignment: usize) -> (res: Result<
        Allocation,
        AllocError,
    >)
        requires
            old(self).wf(),
        ensures
            final(self).wf(),
            res == old(self)@.outcome(size, alignment),
            final(self)@ == old(self)@.after(size, alignment),
            res is Err ==> *final(self) == *old(self),
            res matches Ok(a) ==> {
                &&& is_aligned(a.address as int, alignment as int)
                &&& a.size == size
                &&& old(self)@.offset <= a.offset
                &&& a.end() == final(self)@.offset
                &&& a.end() <= final(self)@.capacity
                &&& forall|i: int|
                    0 <= i < old(self)@.issued.len() ==> (#[trigger] old(self)@.issued[i]).precedes(a)
            },
    {
        let base = self.storage.base_address();
        let capacity = self.storage.capacity();
        let start = self.offset;
        let gap = match padding_for(base + start, alignment) {
            Some(gap) => gap,
            None => {
                return Err(AllocError::InvalidAlignment);
            },
        };
        let remaining = capacity - start;
        if gap > remaining || size > remaining - gap {
            return Err(AllocError::OutOfSpace);
        }
        let allocation = Allocation { offset: start + gap, address: base + start + gap, size };
        proof {
            lemma_allocate_keeps_wf(self@, size, alignment);
        }
        self.offset = start + gap + size;
        proof {
            self.issued@ = self.issued@.push(allocation);
        }
        Ok(allocation)
    }

    /// Gives a range back. Ranges are released only together with the
    /// region, so this changes nothing, whatever the range.
    pub fn deallocate(&mut self, allocation: Allocation)
        ensures
            *final(self) == *old(self),
    {
    }

    /// The number of bytes in the region.
    pub fn capacity(&self) -> (n: usize)
        ensures
            n == self@.capacity,
    {
        self.storage.capacity()
    }

    /// The cursor: the offset of the first byte not yet handed out.
    pub fn offset(&self) -> (n: usize)
        ensures
            n == self@.offset,
    {
        self.offset
    }

    /// The address of the region's first byte.
    pub fn base_address(&self) -> (address: usize)
        ensures
            address == self@.base,
    {
        self.storage.base_address()
    }
}

} // verus!
