//! What holds of every arena, stated over its view.

use vstd::prelude::*;
use crate::align::{
    is_aligned,
    is_pow2,
    lemma_align_up_is_next_multiple,
    lemma_common_alignments,
    lemma_pow2_positive,
};
use crate::arena::{lemma_allocate_keeps_wf, AllocError, Allocation, ArenaView};

verus! {

/// One request: so many bytes at such an alignment.
pub ghost struct Request {
    pub size: usize,
    pub alignment: usize,
}

impl ArenaView {
    /// The arena after the requests were made one after the other, refused
    /// ones included.
    pub open spec fn after_all(self, requests: Seq<Request>) -> ArenaView
        decreases requests.len(),
    {
        if requests.len() == 0 {
            self
        } else {
            self.after_all(requests.drop_last()).after(
                requests.last().size,
                requests.last().alignment,
            )
        }
    }
}

/// The cursor never moves back, and a request that is admitted moves it
/// forward by at least the size asked for.
pub proof fn lemma_cursor_advances(arena: ArenaView, size: usize, alignment: usize)
    requires
        arena.wf(),
    ensures
        arena.offset <= arena.after(size, alignment).offset,
        arena.outcome(size, alignment) is Ok ==> arena.offset + size <= arena.after(
            size,
            alignment,
        ).offset,
        arena.outcome(size, alignment) is Err ==> arena.after(size, alignment) == arena,
{
}

/// Over any run of requests the arena stays valid, the cursor does not move
/// back, the region stays where and as long as it was, and the ranges handed
/// out before are still on record, in their places.
pub proof fn lemma_run_is_monotonic(arena: ArenaView, requests: Seq<Request>)
    requires
        arena.wf(),
    ensures
        arena.after_all(requests).wf(),
        arena.offset <= arena.after_all(requests).offset,
        arena.after_all(requests).base == arena.base,
        arena.after_all(requests).capacity == arena.capacity,
        arena.issued.len() <= arena.after_all(requests).issued.len(),
        forall|i: int|
            0 <= i < arena.issued.len() ==> arena.after_all(requests).issued[i] == arena.issued[i],
    decreases requests.len(),
{
    if requests.len() > 0 {
        let before = arena.after_all(requests.drop_last());
        lemma_run_is_monotonic(arena, requests.drop_last());
        lemma_allocate_keeps_wf(before, requests.last().size, requests.last().alignment);
    }
}

/// A longer run of requests leaves the cursor at or after the place where
/// any of its beginnings left it.
pub proof fn lemma_cursor_monotonic_over_prefixes(
    arena: ArenaView,
    requests: Seq<Request>,
    n: int,
)
    requires
        arena.wf(),
        0 <= n <= requests.len(),
    ensures
        arena.after_all(requests.take(n)).offset <= arena.after_all(requests).offset,
    decreases requests.len() - n,
{
    if n == requests.len() {
        assert(requests.take(n) =~= requests);
    } else {
        assert(requests.drop_last().take(n) =~= requests.take(n));
        lemma_cursor_monotonic_over_prefixes(arena, requests.drop_last(), n);
        lemma_run_is_monotonic(arena, requests.drop_last());
        lemma_cursor_advances(
            arena.after_all(requests.drop_last()),
            requests.last().size,
            requests.last().alignment,
        );
    }
}

/// Two different ranges handed out by one arena do not overlap: one ends
/// before the other starts, so no byte of the region belongs to both.
pub proof fn lemma_issued_disjoint(arena: ArenaView, i: int, j: int)
    requires
        arena.wf(),
        0 <= i < arena.issued.len(),
        0 <= j < arena.issued.len(),
        i != j,
    ensures
        arena.issued[i].disjoint(arena.issued[j]),
        forall|b: int| !(arena.issued[i].contains(b) && arena.issued[j].contains(b)),
{
    if i < j {
        assert(arena.issued[i].precedes(arena.issued[j]));
    } else {
        assert(arena.issued[j].precedes(arena.issued[i]));
    }
}

/// A range handed out for a request is disjoint from every range handed out
/// before it.
pub proof fn lemma_new_range_disjoint(arena: ArenaView, size: usize, alignment: usize, i: int)
    requires
        arena.wf(),
        arena.outcome(size, alignment) is Ok,
        0 <= i < arena.issued.len(),
    ensures
        arena.issued[i].disjoint(arena.outcome(size, alignment)->Ok_0),
{
    lemma_allocate_keeps_wf(arena, size, alignment);
}

/// A range handed out for a request starts at a multiple of the alignment
/// asked for: at the first such address from the cursor on.
pub proof fn lemma_allocation_aligned(arena: ArenaView, size: usize, alignment: usize)
    requires
        arena.wf(),
        arena.outcome(size, alignment) is Ok,
    ensures
        is_aligned(arena.outcome(size, alignment)->Ok_0.address as int, alignment as int),
        arena.cursor_address() <= arena.outcome(size, alignment)->Ok_0.address,
        forall|m: int|
            arena.cursor_address() <= m && #[trigger] is_aligned(m, alignment as int)
                ==> arena.outcome(size, alignment)->Ok_0.address <= m,
{
    lemma_pow2_positive(alignment as int);
    lemma_align_up_is_next_multiple(arena.cursor_address() as int, alignment as int);
    lemma_allocate_keeps_wf(arena, size, alignment);
}

/// Every range handed out lies within the region: its offsets within
/// `[0, capacity)`, its addresses within the region's addresses.
pub proof fn lemma_issued_in_bounds(arena: ArenaView, i: int)
    requires
        arena.wf(),
        0 <= i < arena.issued.len(),
    ensures
        0 <= arena.issued[i].offset,
        arena.issued[i].end() <= arena.offset <= arena.capacity,
        arena.base <= arena.issued[i].address,
        arena.issued[i].address + arena.issued[i].size <= arena.base + arena.capacity,
{
    assert(arena.covers(arena.issued[i]));
}

/// A request for more bytes than the region has is refused for want of
/// space, whatever was handed out before, and leaves the arena as it was.
pub proof fn lemma_oversized_request_refused(arena: ArenaView, size: usize, alignment: usize)
    requires
        arena.wf(),
        is_pow2(alignment as int),
        size > arena.capacity,
    ensures
        arena.outcome(size, alignment) == Err::<Allocation, AllocError>(AllocError::OutOfSpace),
        arena.after(size, alignment) == arena,
{
}

/// In an arena from which nothing was taken, a request at alignment one for
/// more bytes than the region has is refused, and a request for the whole
/// region that follows it is admitted and fills the region.
pub proof fn lemma_whole_region_after_refusal(base: nat, capacity: usize, size: usize)
    requires
        base + capacity <= usize::MAX,
        size > capacity,
    ensures
        ArenaView::fresh(base, capacity as nat).wf(),
        ArenaView::fresh(base, capacity as nat).outcome(size, 1) == Err::<Allocation, AllocError>(
            AllocError::OutOfSpace,
        ),
        ArenaView::fresh(base, capacity as nat).after(size, 1).outcome(capacity, 1) == Ok::<
            Allocation,
            AllocError,
        >(Allocation { offset: 0, address: base as usize, size: capacity }),
        ArenaView::fresh(base, capacity as nat).after(size, 1).after(capacity, 1).offset
            == capacity,
{
    lemma_common_alignments();
}

} // verus!
