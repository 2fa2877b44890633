//! A pool of chunks for one memory type.
//!
//! The pool takes chunks of one size from a backing allocator and divides
//! each into pages. A request goes to the first chunk that has room for it;
//! when none has, a new chunk is taken. A chunk whose last suballocation is
//! freed goes back to the backing allocator at once.
//!
//! A suballocation names its chunk as its parent, which is how `free`
//! finds the chunk again. The suballocations that a pool hands out get
//! their ids from a source of ids that is handed to each call, so that
//! several pools can number their suballocations from one source.
use crate::allocation::{
    next_id_after, Allocation, AllocationId, AllocationIdSource, AllocationView,
};
use crate::allocation_requirements::AllocationRequirements;
use crate::composable_allocator::ComposableAllocator;
use crate::error::{chunk_too_large_message, AllocatorError};
use crate::fake_allocator::FakeAllocator;
use crate::page_arena::{is_free_run, Page};
use crate::page_suballocator::{PageSuballocator, PageSuballocatorView};
use vstd::prelude::*;

verus! {

/// A pool's chunks, as contracts see them.
pub struct ChunkPoolView {
    /// The memory type that the pool allocates from.
    pub memory_type_index: usize,
    /// The size of each chunk of memory that is divided into pages.
    pub chunk_size: u64,
    /// The size of the pages that chunks are divided into.
    pub page_size: u64,
    /// The slots: each holds a chunk or is empty.
    pub chunks: Seq<Option<PageSuballocatorView>>,
}

impl ChunkPoolView {
    /// The invariant: chunks divide evenly into pages, and every chunk that
    /// the pool holds is a chunk of the pool's size and memory type, divided
    /// into the pool's pages, with at least one suballocation in it.
    pub open spec fn wf(self) -> bool {
        &&& self.page_size >= 1
        &&& self.chunk_size % self.page_size == 0
        &&& self.chunk_size / self.page_size <= usize::MAX
        &&& self.chunks.len() <= usize::MAX
        &&& forall|slot: int|
            0 <= slot < self.chunks.len() ==> (#[trigger] self.chunks[slot] matches Some(chunk)
                ==> {
                &&& chunk.wf()
                &&& chunk.page_size == self.page_size
                &&& chunk.backing.size_in_bytes == self.chunk_size
                &&& chunk.backing.memory_type_index == self.memory_type_index
                &&& chunk.chunk_count >= 1
            })
    }

    /// The pool holds no chunk.
    pub open spec fn holds_nothing(self) -> bool {
        forall|slot: int| 0 <= slot < self.chunks.len() ==> self.chunks[slot] is None
    }

    /// The request names another memory type than the pool's.
    pub open spec fn rejects_type(self, requirements: AllocationRequirements) -> bool {
        requirements.memory_type_index != self.memory_type_index
    }

    /// The request, with the room for aligning it, is not smaller than a
    /// chunk.
    pub open spec fn rejects_size(self, requirements: AllocationRequirements) -> bool {
        requirements.spec_aligned_size() >= self.chunk_size
    }

    /// The request for a new chunk that is made on behalf of a request:
    /// one chunk of the pool's memory type, without an alignment, and
    /// otherwise like the request itself.
    pub open spec fn chunk_requirements(
        self,
        requirements: AllocationRequirements,
    ) -> AllocationRequirements {
        AllocationRequirements {
            alignment: 1,
            size_in_bytes: self.chunk_size,
            memory_type_index: self.memory_type_index,
            ..requirements
        }
    }

    /// The requests that the pool may be asked for, with `inner` as its
    /// backing allocator: a request that the pool does not reject has an
    /// alignment, and the backing allocator accepts the request for a chunk
    /// that it may lead to.
    pub open spec fn accepts<A: ComposableAllocator>(
        self,
        inner: A,
        requirements: AllocationRequirements,
    ) -> bool {
        !self.rejects_type(requirements) && !self.rejects_size(requirements) ==> {
            &&& requirements.alignment >= 1
            &&& inner.accepts(self.chunk_requirements(requirements))
        }
    }

    /// The chunk in `slot` has room for the request.
    pub open spec fn has_room(self, slot: int, requirements: AllocationRequirements) -> bool {
        &&& 0 <= slot < self.chunks.len()
        &&& self.chunks[slot] matches Some(chunk)
        &&& chunk.can_place(requirements.size_in_bytes, requirements.alignment)
    }

    /// `slot` holds the first chunk that has room for the request.
    pub open spec fn is_first_with_room(
        self,
        slot: int,
        requirements: AllocationRequirements,
    ) -> bool {
        &&& self.has_room(slot, requirements)
        &&& forall|earlier: int| 0 <= earlier < slot ==> !self.has_room(earlier, requirements)
    }

    /// The slot of the first chunk that has room for the request, if any
    /// has.
    pub open spec fn first_with_room(self, requirements: AllocationRequirements) -> int {
        choose|slot: int| self.is_first_with_room(slot, requirements)
    }

    /// `slot` is where a new chunk goes: the first empty slot, or a new slot
    /// behind the others when none is empty.
    pub open spec fn is_slot_for_new_chunk(self, slot: int) -> bool {
        &&& 0 <= slot <= self.chunks.len()
        &&& slot < self.chunks.len() ==> self.chunks[slot] is None
        &&& forall|earlier: int| 0 <= earlier < slot ==> self.chunks[earlier] is Some
    }

    /// The slot where a new chunk goes.
    pub open spec fn slot_for_new_chunk(self) -> int {
        choose|slot: int| self.is_slot_for_new_chunk(slot)
    }

    /// A chunk that was just taken from the backing allocator: all of its
    /// pages are free.
    pub open spec fn fresh_chunk(self, backing: AllocationView) -> PageSuballocatorView {
        PageSuballocatorView {
            backing,
            page_size: self.page_size,
            pages: Seq::new((self.chunk_size / self.page_size) as nat, |index: int| Page::Free),
            chunk_count: 0,
            next_id: 0,
        }
    }

    /// The allocation that the pool hands out when `chunk` takes the
    /// request: a part of the chunk's allocation, where the chunk places the
    /// request, with the id `next_id` and the request as the requirements
    /// it was made for.
    pub open spec fn granted(
        self,
        chunk: PageSuballocatorView,
        next_id: u64,
        requirements: AllocationRequirements,
    ) -> AllocationView {
        AllocationView {
            id: AllocationId(next_id),
            requirements,
            ..chunk.placed(requirements.size_in_bytes, requirements.alignment)
        }
    }

    /// The pool after `chunk`, which is or comes to be in `slot`, took the
    /// request.
    pub open spec fn after_placing(
        self,
        chunk: PageSuballocatorView,
        slot: int,
        requirements: AllocationRequirements,
    ) -> Self {
        let taken = Some(
            chunk.after_allocate(requirements.size_in_bytes, requirements.alignment),
        );
        ChunkPoolView {
            chunks: if slot < self.chunks.len() {
                self.chunks.update(slot, taken)
            } else {
                self.chunks.push(taken)
            },
            ..self
        }
    }

    /// What `allocate_with` does, with `inner` as the backing allocator
    /// before the call and `inner_after` after it, and with `next_id` as
    /// the id that the source of ids gives next. The id is drawn exactly
    /// when the request is granted.
    ///
    /// * A request for another memory type fails: "Memory type index
    ///   mismatch".
    /// * A request whose aligned size is a chunk's size or more fails:
    ///   "Unable to allocate a chunk of memory with N bytes".
    /// * Otherwise the first chunk that has room takes the request.
    /// * When no chunk has room, a new chunk is taken from the backing
    ///   allocator, whose error is handed on as it is. The new chunk takes
    ///   the request and goes into the first empty slot. If even the new
    ///   chunk cannot take the request, the chunk is given back, and the
    ///   request fails with the pool as it was.
    pub open spec fn allocates<A: ComposableAllocator>(
        self,
        inner: A,
        next_id: u64,
        requirements: AllocationRequirements,
        after: Self,
        inner_after: A,
        result: Result<Allocation, AllocatorError>,
    ) -> bool {
        if self.rejects_type(requirements) {
            &&& after == self
            &&& inner_after == inner
            &&& result matches Err(error)
            &&& error.is_runtime_error("Memory type index mismatch"@)
        } else if self.rejects_size(requirements) {
            &&& after == self
            &&& inner_after == inner
            &&& result matches Err(error)
            &&& error.is_runtime_error(chunk_too_large_message(requirements.size_in_bytes))
        } else if exists|slot: int| self.has_room(slot, requirements) {
            let slot = self.first_with_room(requirements);
            let chunk = self.chunks[slot].unwrap();
            &&& after == self.after_placing(chunk, slot, requirements)
            &&& inner_after == inner
            &&& result matches Ok(allocation)
            &&& allocation@ == self.granted(chunk, next_id, requirements)
        } else {
            self.allocates_from_new_chunk(
                inner,
                next_id,
                requirements,
                after,
                inner_after,
                result,
            )
        }
    }

    /// What `allocate_with` does when no chunk has room for the request.
    pub open spec fn allocates_from_new_chunk<A: ComposableAllocator>(
        self,
        inner: A,
        next_id: u64,
        requirements: AllocationRequirements,
        after: Self,
        inner_after: A,
        result: Result<Allocation, AllocatorError>,
    ) -> bool {
        let chunk_requirements = self.chunk_requirements(requirements);
        ||| {
            &&& result is Err
            &&& inner.allocates(chunk_requirements, &inner_after, result)
            &&& after == self
        }
        ||| exists|backing: Allocation|
            {
                let chunk = self.fresh_chunk(backing@);
                let slot = self.slot_for_new_chunk();
                &&& chunk.can_place(requirements.size_in_bytes, requirements.alignment)
                &&& #[trigger] inner.allocates(chunk_requirements, &inner_after, Ok(backing))
                &&& after == self.after_placing(chunk, slot, requirements)
                &&& result matches Ok(allocation)
                &&& allocation@ == self.granted(chunk, next_id, requirements)
            }
        ||| exists|backing: Allocation, inner_between: A|
            {
                let chunk = self.fresh_chunk(backing@);
                &&& !chunk.can_place(requirements.size_in_bytes, requirements.alignment)
                &&& #[trigger] inner.allocates(chunk_requirements, &inner_between, Ok(backing))
                &&& #[trigger] inner_between.frees(backing, &inner_after)
                &&& after == self
                &&& result matches Err(error)
                &&& error.is_runtime_error(
                    "Unable to find a contiguous chunk of the requseted size."@,
                )
            }
    }

    /// The chunk in `slot` is the parent of the allocation: the allocation
    /// names the chunk's allocation as its parent and begins inside it.
    pub open spec fn owns(self, slot: int, allocation: AllocationView) -> bool {
        &&& 0 <= slot < self.chunks.len()
        &&& self.chunks[slot] matches Some(chunk)
        &&& allocation.parent_id == Some(chunk.backing.id)
        &&& chunk.can_hold(allocation)
        &&& allocation.offset_in_bytes < chunk.backing.end()
    }

    /// `slot` holds the first chunk that is the parent of the allocation.
    pub open spec fn is_first_owner(self, slot: int, allocation: AllocationView) -> bool {
        &&& self.owns(slot, allocation)
        &&& forall|earlier: int| 0 <= earlier < slot ==> !self.owns(earlier, allocation)
    }

    /// The slot of the allocation's parent, if the pool holds it.
    pub open spec fn owner_of(self, allocation: AllocationView) -> int {
        choose|slot: int| self.is_first_owner(slot, allocation)
    }

    /// The chunk that an allocation names as its parent is in the pool.
    pub open spec fn holds_parent_of(self, allocation: AllocationView) -> bool {
        exists|slot: int| self.owns(slot, allocation)
    }

    /// What `free_with` does, with `inner` as the backing allocator before
    /// the call and `inner_after` after it.
    ///
    /// The chunk that the allocation names as its parent frees the
    /// allocation. If that leaves the chunk without suballocations, the
    /// chunk leaves the pool and is returned to the backing allocator. An
    /// allocation whose parent is not in the pool is ignored.
    pub open spec fn frees<A: ComposableAllocator>(
        self,
        inner: A,
        allocation: Allocation,
        after: Self,
        inner_after: A,
    ) -> bool {
        if self.holds_parent_of(allocation@) {
            let slot = self.owner_of(allocation@);
            let chunk = self.chunks[slot].unwrap().after_free(allocation@);
            if chunk.chunk_count == 0 {
                &&& after == (ChunkPoolView { chunks: self.chunks.update(slot, None), ..self })
                &&& exists|backing: Allocation|
                    backing@ == chunk.backing && #[trigger] inner.frees(backing, &inner_after)
            } else {
                &&& after == (ChunkPoolView { chunks: self.chunks.update(slot, Some(chunk)), ..self })
                &&& inner_after == inner
            }
        } else {
            &&& after == self
            &&& inner_after == inner
        }
    }
}

/// The number of chunks in the first `n` slots.
pub open spec fn held_in_slots(chunks: Seq<Option<PageSuballocatorView>>, n: int) -> nat
    decreases n,
{
    if n <= 0 {
        0
    } else {
        held_in_slots(chunks, n - 1) + if chunks[n - 1] is Some {
            1nat
        } else {
            0nat
        }
    }
}

/// Changing one slot changes the number of chunks by what the slot gains or
/// loses.
proof fn lemma_held_after_update(
    chunks: Seq<Option<PageSuballocatorView>>,
    slot: int,
    changed: Option<PageSuballocatorView>,
    n: int,
)
    requires
        0 <= slot < chunks.len(),
        0 <= n <= chunks.len(),
    ensures
        held_in_slots(chunks.update(slot, changed), n) + (if n > slot && chunks[slot] is Some {
            1nat
        } else {
            0nat
        }) == held_in_slots(chunks, n) + (if n > slot && changed is Some {
            1nat
        } else {
            0nat
        }),
    decreases n,
{
    if n > 0 {
        lemma_held_after_update(chunks, slot, changed, n - 1);
    }
}

/// A new slot with a chunk in it adds one to the number of chunks.
proof fn lemma_held_after_push(
    chunks: Seq<Option<PageSuballocatorView>>,
    added: PageSuballocatorView,
    n: int,
)
    requires
        0 <= n <= chunks.len(),
    ensures
        held_in_slots(chunks.push(Some(added)), n) == held_in_slots(chunks, n),
        n == chunks.len() ==> held_in_slots(chunks.push(Some(added)), n + 1) == held_in_slots(
            chunks,
            n,
        ) + 1,
    decreases n,
{
    let pushed = chunks.push(Some(added));
    if n > 0 {
        lemma_held_after_push(chunks, added, n - 1);
        assert(pushed[n - 1] == chunks[n - 1]);
        assert(held_in_slots(pushed, n) == held_in_slots(pushed, n - 1) + if pushed[n - 1] is Some {
            1nat
        } else {
            0nat
        });
    }
    assert(held_in_slots(pushed, n) == held_in_slots(chunks, n));
    if n == chunks.len() {
        assert(pushed[n] == Some(added));
        assert(held_in_slots(pushed, n + 1) == held_in_slots(pushed, n) + if pushed[n] is Some {
            1nat
        } else {
            0nat
        });
    }
}

/// Slots hold no chunk exactly when each of them is empty.
proof fn lemma_held_zero(chunks: Seq<Option<PageSuballocatorView>>, n: int)
    requires
        0 <= n <= chunks.len(),
    ensures
        held_in_slots(chunks, n) <= n,
        held_in_slots(chunks, n) == 0 <==> forall|slot: int| 0 <= slot < n ==> chunks[slot] is None,
    decreases n,
{
    if n > 0 {
        lemma_held_zero(chunks, n - 1);
        if held_in_slots(chunks, n) == 0 {
            assert forall|slot: int| 0 <= slot < n implies chunks[slot] is None by {
                if slot == n - 1 {
                    assert(!(chunks[n - 1] is Some));
                }
            }
        }
    }
}

/// The number of suballocations in a slot: those of its chunk, and none
/// where the slot is empty.
pub open spec fn live_in_slot(slot: Option<PageSuballocatorView>) -> nat {
    match slot {
        Some(chunk) => chunk.chunk_count,
        None => 0,
    }
}

/// The number of suballocations in the first `n` slots.
pub open spec fn live_in_slots(chunks: Seq<Option<PageSuballocatorView>>, n: int) -> nat
    decreases n,
{
    if n <= 0 {
        0
    } else {
        live_in_slots(chunks, n - 1) + live_in_slot(chunks[n - 1])
    }
}

impl ChunkPoolView {
    /// The number of chunks that the pool holds.
    pub open spec fn held_count(self) -> nat {
        held_in_slots(self.chunks, self.chunks.len() as int)
    }

    /// The number of suballocations of the pool that have not been freed.
    pub open spec fn live_count(self) -> nat {
        live_in_slots(self.chunks, self.chunks.len() as int)
    }

    /// Freeing the allocation frees a chunk of pages: its parent is in the
    /// pool, and it begins in a page of its parent that is allocated.
    pub open spec fn frees_pages_of(self, allocation: AllocationView) -> bool {
        &&& self.holds_parent_of(allocation)
        &&& {
            let chunk = self.chunks[self.owner_of(allocation)].unwrap();
            &&& chunk.page_of(allocation) < chunk.pages.len()
            &&& chunk.pages[chunk.page_of(allocation)] != Page::Free
        }
    }
}

/// Changing one slot changes the count of suballocations by what the slot
/// gains or loses.
proof fn lemma_live_after_update(
    chunks: Seq<Option<PageSuballocatorView>>,
    slot: int,
    changed: Option<PageSuballocatorView>,
    n: int,
)
    requires
        0 <= slot < chunks.len(),
        0 <= n <= chunks.len(),
    ensures
        live_in_slots(chunks.update(slot, changed), n) + (if n > slot {
            live_in_slot(chunks[slot])
        } else {
            0
        }) == live_in_slots(chunks, n) + (if n > slot {
            live_in_slot(changed)
        } else {
            0
        }),
    decreases n,
{
    if n > 0 {
        lemma_live_after_update(chunks, slot, changed, n - 1);
    }
}

/// A new slot adds its suballocations to the count.
proof fn lemma_live_after_push(
    chunks: Seq<Option<PageSuballocatorView>>,
    added: Option<PageSuballocatorView>,
    n: int,
)
    requires
        0 <= n <= chunks.len(),
    ensures
        live_in_slots(chunks.push(added), n) == live_in_slots(chunks, n),
        n == chunks.len() ==> live_in_slots(chunks.push(added), n + 1) == live_in_slots(chunks, n)
            + live_in_slot(added),
    decreases n,
{
    let pushed = chunks.push(added);
    if n > 0 {
        lemma_live_after_push(chunks, added, n - 1);
        assert(pushed[n - 1] == chunks[n - 1]);
        assert(live_in_slots(pushed, n) == live_in_slots(pushed, n - 1) + live_in_slot(
            pushed[n - 1],
        ));
    }
    assert(live_in_slots(pushed, n) == live_in_slots(chunks, n));
    if n == chunks.len() {
        assert(pushed[n] == added);
        assert(live_in_slots(pushed, n + 1) == live_in_slots(pushed, n) + live_in_slot(pushed[n]));
    }
}

/// Slots hold no suballocation exactly when they hold no chunk, since a
/// chunk that is held has a suballocation.
proof fn lemma_live_zero(chunks: Seq<Option<PageSuballocatorView>>, n: int)
    requires
        0 <= n <= chunks.len(),
        forall|slot: int|
            0 <= slot < chunks.len() ==> (#[trigger] chunks[slot] matches Some(chunk)
                ==> chunk.chunk_count >= 1),
    ensures
        live_in_slots(chunks, n) == 0 <==> forall|slot: int| 0 <= slot < n ==> chunks[slot] is None,
    decreases n,
{
    if n > 0 {
        lemma_live_zero(chunks, n - 1);
        if live_in_slots(chunks, n) == 0 {
            assert forall|slot: int| 0 <= slot < n implies chunks[slot] is None by {
                if slot == n - 1 {
                    assert(live_in_slot(chunks[n - 1]) == 0);
                }
            }
        }
    }
}

/// There is always a slot for a new chunk.
pub proof fn lemma_slot_for_new_chunk_exists(pool: ChunkPoolView)
    ensures
        pool.is_slot_for_new_chunk(pool.slot_for_new_chunk()),
{
    lemma_some_slot_is_for_new_chunk(pool, pool.chunks.len() as int);
}

/// Either a slot among the first `n` is the one for a new chunk, or all of
/// them hold chunks.
proof fn lemma_some_slot_is_for_new_chunk(pool: ChunkPoolView, n: int)
    requires
        0 <= n <= pool.chunks.len(),
    ensures
        (exists|slot: int| pool.is_slot_for_new_chunk(slot)) || (n < pool.chunks.len()
            && forall|earlier: int| 0 <= earlier <= n ==> pool.chunks[earlier] is Some),
    decreases n,
{
    if n == 0 {
        if pool.chunks.len() == 0 || pool.chunks[0] is None {
            assert(pool.is_slot_for_new_chunk(0));
        }
    } else {
        lemma_some_slot_is_for_new_chunk(pool, n - 1);
        if !exists|slot: int| pool.is_slot_for_new_chunk(slot) {
            if n == pool.chunks.len() || pool.chunks[n] is None {
                assert(pool.is_slot_for_new_chunk(n));
            }
        }
    }
}

/// A new chunk has room for every request that the pool does not reject
/// for its size, as long as the request needs a page at all. (A request
/// for no bytes whose alignment the page boundaries suit needs none.)
pub proof fn lemma_new_chunk_has_room(
    pool: ChunkPoolView,
    backing: AllocationView,
    requirements: AllocationRequirements,
)
    requires
        pool.wf(),
        requirements.alignment >= 1,
        !pool.rejects_size(requirements),
        pool.fresh_chunk(backing).pages_needed(
            requirements.size_in_bytes,
            requirements.alignment,
        ) >= 1,
    ensures
        pool.fresh_chunk(backing).can_place(requirements.size_in_bytes, requirements.alignment),
{
    let chunk = pool.fresh_chunk(backing);
    let n = chunk.pages_needed(requirements.size_in_bytes, requirements.alignment);
    let bytes = chunk.bytes_needed(requirements.size_in_bytes, requirements.alignment);
    let page = pool.page_size as int;
    let size = pool.chunk_size as int;
    assert(bytes < size);
    assert((size / page) * page == size) by (nonlinear_arith)
        requires
            page >= 1,
            size % page == 0,
            size >= 0,
    ;
    assert(n <= size / page) by (nonlinear_arith)
        requires
            n == (bytes + page - 1) / page,
            bytes < size,
            (size / page) * page == size,
            page >= 1,
    ;
    assert(is_free_run(chunk.pages, 0, n));
}

/// A pool is empty exactly when all its suballocations have been freed:
/// it holds no chunk if and only if it counts no live suballocation.
pub proof fn lemma_pool_is_empty_when_nothing_is_live(pool: ChunkPoolView)
    requires
        pool.wf(),
    ensures
        pool.live_count() == 0 <==> pool.holds_nothing(),
{
    lemma_live_zero(pool.chunks, pool.chunks.len() as int);
}

/// Allocating is counted: a request that is granted adds one live
/// suballocation to the pool, and one that fails adds none.
pub proof fn lemma_allocate_adds_one_live<A: ComposableAllocator>(
    pool: ChunkPoolView,
    inner: A,
    next_id: u64,
    requirements: AllocationRequirements,
    after: ChunkPoolView,
    inner_after: A,
    result: Result<Allocation, AllocatorError>,
)
    requires
        pool.wf(),
        pool.allocates(inner, next_id, requirements, after, inner_after, result),
    ensures
        after.live_count() == pool.live_count() + if result is Ok {
            1nat
        } else {
            0nat
        },
{
    let len = pool.chunks.len() as int;
    if pool.rejects_type(requirements) || pool.rejects_size(requirements) {
    } else if exists|slot: int| pool.has_room(slot, requirements) {
        let slot = pool.first_with_room(requirements);
        let witness = choose|slot: int| pool.has_room(slot, requirements);
        lemma_first_with_room_exists(pool, requirements, witness);
        let chunk = pool.chunks[slot].unwrap();
        let taken = Some(
            chunk.after_allocate(requirements.size_in_bytes, requirements.alignment),
        );
        lemma_live_after_update(pool.chunks, slot, taken, len);
    } else if result is Ok {
        lemma_slot_for_new_chunk_exists(pool);
        let slot = pool.slot_for_new_chunk();
        let backing = choose|backing: Allocation|
            {
                let chunk = pool.fresh_chunk(backing@);
                &&& chunk.can_place(requirements.size_in_bytes, requirements.alignment)
                &&& #[trigger] inner.allocates(
                    pool.chunk_requirements(requirements),
                    &inner_after,
                    Ok(backing),
                )
                &&& after == pool.after_placing(chunk, slot, requirements)
            };
        let chunk = pool.fresh_chunk(backing@);
        let taken = Some(
            chunk.after_allocate(requirements.size_in_bytes, requirements.alignment),
        );
        if slot < len {
            lemma_live_after_update(pool.chunks, slot, taken, len);
        } else {
            lemma_live_after_push(pool.chunks, taken, len);
        }
    }
}

/// Where a chunk has room, a first chunk has room.
proof fn lemma_first_with_room_exists(
    pool: ChunkPoolView,
    requirements: AllocationRequirements,
    slot: int,
)
    requires
        pool.has_room(slot, requirements),
    ensures
        pool.is_first_with_room(pool.first_with_room(requirements), requirements),
    decreases slot,
{
    if exists|earlier: int| 0 <= earlier < slot && pool.has_room(earlier, requirements) {
        let earlier = choose|earlier: int|
            0 <= earlier < slot && pool.has_room(earlier, requirements);
        lemma_first_with_room_exists(pool, requirements, earlier);
    } else {
        assert(pool.is_first_with_room(slot, requirements));
    }
}

/// Freeing is counted: an allocation that begins in an allocated page of
/// its parent chunk takes one live suballocation from the pool, and any
/// other allocation takes none.
pub proof fn lemma_free_takes_one_live<A: ComposableAllocator>(
    pool: ChunkPoolView,
    inner: A,
    allocation: Allocation,
    after: ChunkPoolView,
    inner_after: A,
)
    requires
        pool.wf(),
        pool.frees(inner, allocation, after, inner_after),
    ensures
        after.live_count() + (if pool.frees_pages_of(allocation@) {
            1nat
        } else {
            0nat
        }) == pool.live_count(),
{
    if pool.holds_parent_of(allocation@) {
        lemma_owner_exists(pool, allocation@, choose|slot: int| pool.owns(slot, allocation@));
        let slot = pool.owner_of(allocation@);
        let held = pool.chunks[slot].unwrap();
        let chunk = held.after_free(allocation@);
        assert(held.chunk_count >= 1);
        if chunk.chunk_count == 0 {
            lemma_live_after_update(pool.chunks, slot, None, pool.chunks.len() as int);
        } else {
            lemma_live_after_update(pool.chunks, slot, Some(chunk), pool.chunks.len() as int);
        }
    }
}

/// Freeing the last suballocation empties the pool: where the pool counts
/// one live suballocation and the allocation that is freed begins in an
/// allocated page of its parent chunk, the pool holds no chunk afterwards,
/// and no request finds room in it without a new chunk.
pub proof fn lemma_last_free_empties_the_pool<A: ComposableAllocator>(
    pool: ChunkPoolView,
    inner: A,
    allocation: Allocation,
    after: ChunkPoolView,
    inner_after: A,
)
    requires
        pool.wf(),
        after.wf(),
        pool.live_count() == 1,
        pool.frees_pages_of(allocation@),
        pool.frees(inner, allocation, after, inner_after),
    ensures
        after.live_count() == 0,
        after.holds_nothing(),
        forall|slot: int, requirements: AllocationRequirements| !#[trigger] after.has_room(
            slot,
            requirements,
        ),
{
    lemma_free_takes_one_live(pool, inner, allocation, after, inner_after);
    lemma_pool_is_empty_when_nothing_is_live(after);
    assert forall|slot: int, requirements: AllocationRequirements| !#[trigger] after.has_room(
        slot,
        requirements,
    ) by {
        if 0 <= slot < after.chunks.len() {
            assert(after.chunks[slot] is None);
        }
    }
}

/// A chunk that leaves the pool goes back to the backing allocator: where a
/// slot holds a chunk before `free` and none after it, the backing allocator
/// has freed that chunk's allocation. A `free` that makes no chunk leave
/// does not touch the backing allocator.
pub proof fn lemma_chunks_are_returned<A: ComposableAllocator>(
    pool: ChunkPoolView,
    inner: A,
    allocation: Allocation,
    after: ChunkPoolView,
    inner_after: A,
)
    requires
        pool.wf(),
        pool.frees(inner, allocation, after, inner_after),
    ensures
        forall|slot: int|
            0 <= slot < pool.chunks.len() && pool.chunks[slot] is Some
                && #[trigger] after.chunks[slot] is None ==> exists|backing: Allocation|
                backing@ == pool.chunks[slot].unwrap().backing && #[trigger] inner.frees(
                    backing,
                    &inner_after,
                ),
        (forall|slot: int|
            0 <= slot < pool.chunks.len() ==> (pool.chunks[slot] is Some
                <==> #[trigger] after.chunks[slot] is Some)) ==> inner_after == inner,
        after.chunks.len() == pool.chunks.len(),
{
    if pool.holds_parent_of(allocation@) {
        lemma_owner_exists(pool, allocation@, choose|slot: int| pool.owns(slot, allocation@));
        let at = pool.owner_of(allocation@);
        let chunk = pool.chunks[at].unwrap().after_free(allocation@);
        if chunk.chunk_count == 0 {
            assert(after.chunks[at] is None);
        }
    }
}

/// A pool over the fake allocator is balanced when the fake allocator
/// counts as many active allocations as the pool holds chunks.
pub open spec fn chunks_are_counted(pool: ChunkPoolView, terminal: FakeAllocator) -> bool {
    terminal.active_allocations == pool.held_count()
}

/// Every chunk is returned to the allocator that it came from. With the
/// fake allocator at the end of the stack this can be counted: as long as
/// the fake allocator counts the chunks that the pool holds, `allocate`
/// keeps it so.
pub proof fn lemma_allocate_keeps_chunks_counted(
    pool: ChunkPoolView,
    terminal: FakeAllocator,
    next_id: u64,
    requirements: AllocationRequirements,
    after: ChunkPoolView,
    terminal_after: FakeAllocator,
    result: Result<Allocation, AllocatorError>,
)
    requires
        pool.wf(),
        chunks_are_counted(pool, terminal),
        pool.allocates(terminal, next_id, requirements, after, terminal_after, result),
    ensures
        chunks_are_counted(after, terminal_after),
{
    let len = pool.chunks.len() as int;
    if pool.rejects_type(requirements) || pool.rejects_size(requirements) {
    } else if exists|slot: int| pool.has_room(slot, requirements) {
        let witness = choose|slot: int| pool.has_room(slot, requirements);
        lemma_first_with_room_exists(pool, requirements, witness);
        let slot = pool.first_with_room(requirements);
        let chunk = pool.chunks[slot].unwrap();
        let taken = Some(
            chunk.after_allocate(requirements.size_in_bytes, requirements.alignment),
        );
        lemma_held_after_update(pool.chunks, slot, taken, len);
    } else if result is Ok {
        lemma_slot_for_new_chunk_exists(pool);
        let slot = pool.slot_for_new_chunk();
        let backing = choose|backing: Allocation|
            {
                let chunk = pool.fresh_chunk(backing@);
                &&& chunk.can_place(requirements.size_in_bytes, requirements.alignment)
                &&& #[trigger] terminal.allocates(
                    pool.chunk_requirements(requirements),
                    &terminal_after,
                    Ok(backing),
                )
                &&& after == pool.after_placing(chunk, slot, requirements)
            };
        let chunk = pool.fresh_chunk(backing@);
        let taken = chunk.after_allocate(requirements.size_in_bytes, requirements.alignment);
        if slot < len {
            lemma_held_after_update(pool.chunks, slot, Some(taken), len);
        } else {
            lemma_held_after_push(pool.chunks, taken, len);
        }
    }
}

/// As long as the fake allocator counts the chunks that the pool holds,
/// `free` keeps it so. A pool that holds nothing has therefore returned
/// every chunk: the fake allocator counts no active allocation.
pub proof fn lemma_free_keeps_chunks_counted(
    pool: ChunkPoolView,
    terminal: FakeAllocator,
    allocation: Allocation,
    after: ChunkPoolView,
    terminal_after: FakeAllocator,
)
    requires
        pool.wf(),
        chunks_are_counted(pool, terminal),
        pool.frees(terminal, allocation, after, terminal_after),
    ensures
        chunks_are_counted(after, terminal_after),
        after.holds_nothing() ==> terminal_after.active_allocations == 0,
{
    let len = pool.chunks.len() as int;
    if pool.holds_parent_of(allocation@) {
        lemma_owner_exists(pool, allocation@, choose|slot: int| pool.owns(slot, allocation@));
        let slot = pool.owner_of(allocation@);
        let chunk = pool.chunks[slot].unwrap().after_free(allocation@);
        lemma_held_zero(pool.chunks, len);
        if chunk.chunk_count == 0 {
            lemma_held_after_update(pool.chunks, slot, None, len);
        } else {
            lemma_held_after_update(pool.chunks, slot, Some(chunk), len);
        }
    }
    lemma_held_zero(after.chunks, after.chunks.len() as int);
}

/// The first parent of an allocation is one chunk.
pub proof fn lemma_first_owner_is_unique(pool: ChunkPoolView, slot: int, allocation: AllocationView)
    requires
        pool.is_first_owner(slot, allocation),
    ensures
        pool.owner_of(allocation) == slot,
{
    let chosen = pool.owner_of(allocation);
    assert(pool.is_first_owner(chosen, allocation));
    if chosen < slot {
        assert(!pool.owns(chosen, allocation));
    }
    if slot < chosen {
        assert(!pool.owns(slot, allocation));
    }
}

/// Where a chunk is the parent of an allocation, a first chunk is.
proof fn lemma_owner_exists(pool: ChunkPoolView, allocation: AllocationView, slot: int)
    requires
        pool.owns(slot, allocation),
    ensures
        pool.is_first_owner(pool.owner_of(allocation), allocation),
    decreases slot,
{
    if exists|earlier: int| 0 <= earlier < slot && pool.owns(earlier, allocation) {
        let earlier = choose|earlier: int| 0 <= earlier < slot && pool.owns(earlier, allocation);
        lemma_owner_exists(pool, allocation, earlier);
    } else {
        assert(pool.is_first_owner(slot, allocation));
    }
}

/// The first chunk with room is one chunk.
pub proof fn lemma_first_with_room_is_unique(
    pool: ChunkPoolView,
    slot: int,
    requirements: AllocationRequirements,
)
    requires
        pool.is_first_with_room(slot, requirements),
    ensures
        pool.first_with_room(requirements) == slot,
{
    let chosen = pool.first_with_room(requirements);
    assert(pool.is_first_with_room(chosen, requirements));
    if chosen < slot {
        assert(!pool.has_room(chosen, requirements));
    }
    if slot < chosen {
        assert(!pool.has_room(slot, requirements));
    }
}

/// A new chunk has one place to go.
pub proof fn lemma_slot_for_new_chunk_is_unique(pool: ChunkPoolView, slot: int)
    requires
        pool.is_slot_for_new_chunk(slot),
    ensures
        pool.slot_for_new_chunk() == slot,
{
    let chosen = pool.slot_for_new_chunk();
    assert(pool.is_slot_for_new_chunk(chosen));
    if chosen < slot {
        assert(pool.chunks[chosen] is Some);
    }
    if slot < chosen {
        assert(pool.chunks[slot] is Some);
    }
}

/// The chunks of a pool for one memory type: everything that
/// `MemoryTypePoolAllocator` is, but for the backing allocator, which is
/// handed to each call. Several pools can so share one backing allocator.
pub struct ChunkPool {
    memory_type_index: usize,
    chunk_size: u64,
    page_size: u64,
    chunks: Vec<Option<PageSuballocator>>,
}

/// A slot as contracts see it.
pub open spec fn slot_view(slot: Option<PageSuballocator>) -> Option<PageSuballocatorView> {
    match slot {
        Some(chunk) => Some(chunk@),
        None => None,
    }
}

impl View for ChunkPool {
    type V = ChunkPoolView;

    closed spec fn view(&self) -> ChunkPoolView {
        ChunkPoolView {
            memory_type_index: self.memory_type_index,
            chunk_size: self.chunk_size,
            page_size: self.page_size,
            chunks: Seq::new(self.chunks@.len(), |slot: int| slot_view(self.chunks@[slot])),
        }
    }
}

impl ChunkPool {
    /// Create a new pool for a particular memory type index.
    ///
    /// * `memory_type_index`: the index of the specific memory type this
    ///   pool can allocate from.
    /// * `chunk_size`: the size of each chunk of memory to be divided into
    ///   pages.
    /// * `page_size`: chunks are divided into pages with this size for
    ///   allocation.
    ///
    /// Chunks must be evenly divisible into pages.
    pub fn new(memory_type_index: usize, chunk_size: u64, page_size: u64) -> (pool: Self)
        requires
            page_size >= 1,
            chunk_size % page_size == 0,
            chunk_size / page_size <= usize::MAX,
        ensures
            pool@.wf(),
            pool@ == (ChunkPoolView {
                memory_type_index,
                chunk_size,
                page_size,
                chunks: Seq::empty(),
            }),
    {
        let pool = Self { memory_type_index, chunk_size, page_size, chunks: Vec::new() };
        assert(pool@.chunks =~= Seq::empty());
        pool
    }

    /// The number of chunks that the pool holds right now.
    pub fn chunk_count(&self) -> (count: usize)
        ensures
            count == self@.held_count(),
            count == 0 <==> self@.holds_nothing(),
    {
        let mut count: usize = 0;
        let mut slot: usize = 0;
        while slot < self.chunks.len()
            invariant
                slot <= self.chunks@.len(),
                count <= slot,
                count == held_in_slots(self@.chunks, slot as int),
            decreases self.chunks@.len() - slot,
        {
            if self.chunks[slot].is_some() {
                count = count + 1;
                assert(self@.chunks[slot as int] is Some);
            } else {
                assert(self@.chunks[slot as int] is None);
            }
            slot = slot + 1;
        }
        proof {
            lemma_held_zero(self@.chunks, self@.chunks.len() as int);
        }
        count
    }

    /// Returns true when the pool holds no chunk.
    pub fn is_empty(&self) -> (empty: bool)
        ensures
            empty <==> self@.holds_nothing(),
    {
        self.chunk_count() == 0
    }

    /// The slot where a new chunk goes.
    fn find_slot_for_new_chunk(&self) -> (slot: usize)
        ensures
            self@.is_slot_for_new_chunk(slot as int),
    {
        let mut slot: usize = 0;
        while slot < self.chunks.len()
            invariant
                slot <= self.chunks@.len(),
                forall|earlier: int| 0 <= earlier < slot ==> self@.chunks[earlier] is Some,
            decreases self.chunks@.len() - slot,
        {
            if self.chunks[slot].is_none() {
                return slot;
            }
            slot = slot + 1;
        }
        slot
    }

    /// The slot of the chunk that is the parent of the allocation, if the
    /// pool holds it.
    fn find_owner(&self, allocation: &Allocation) -> (owner: Option<usize>)
        ensures
            match owner {
                Some(slot) => {
                    &&& self@.holds_parent_of(allocation@)
                    &&& self@.is_first_owner(slot as int, allocation@)
                    &&& slot == self@.owner_of(allocation@)
                },
                None => !self@.holds_parent_of(allocation@),
            },
    {
        let parent = match allocation.parent_id() {
            Some(parent) => parent,
            None => {
                return None;
            },
        };
        let mut slot: usize = 0;
        while slot < self.chunks.len()
            invariant
                slot <= self.chunks@.len(),
                allocation@.parent_id == Some(parent),
                forall|earlier: int| 0 <= earlier < slot ==> !self@.owns(earlier, allocation@),
            decreases self.chunks@.len() - slot,
        {
            let owns = match &self.chunks[slot] {
                Some(chunk) => {
                    let backing = chunk.allocation();
                    backing.id().0 == parent.0 && backing.memory() == allocation.memory()
                        && allocation.offset_in_bytes() >= backing.offset_in_bytes()
                        && allocation.offset_in_bytes() - backing.offset_in_bytes()
                        < backing.size_in_bytes()
                },
                None => false,
            };
            if owns {
                proof {
                    lemma_first_owner_is_unique(self@, slot as int, allocation@);
                }
                return Some(slot);
            }
            slot = slot + 1;
        }
        None
    }

    /// Let the chunk in `slot` take the request, if there is a chunk and it
    /// has room.
    fn place_in_slot(
        &mut self,
        slot: usize,
        ids: &mut AllocationIdSource,
        requirements: AllocationRequirements,
    ) -> (placed: Option<Allocation>)
        requires
            old(self)@.wf(),
            slot < old(self)@.chunks.len(),
            requirements.alignment >= 1,
        ensures
            final(self)@.wf(),
            final(ids).spec_next() == if placed is Some {
                next_id_after(old(ids).spec_next())
            } else {
                old(ids).spec_next()
            },
            match placed {
                Some(allocation) => {
                    &&& old(self)@.has_room(slot as int, requirements)
                    &&& final(self)@ == old(self)@.after_placing(
                        old(self)@.chunks[slot as int].unwrap(),
                        slot as int,
                        requirements,
                    )
                    &&& allocation@ == old(self)@.granted(
                        old(self)@.chunks[slot as int].unwrap(),
                        old(ids).spec_next(),
                        requirements,
                    )
                    &&& allocation@.wf()
                },
                None => !old(self)@.has_room(slot as int, requirements) && final(self)@ == old(
                    self,
                )@,
            },
    {
        let mut found: Option<Allocation> = None;
        match &mut self.chunks[slot] {
            Some(chunk) => {
                match chunk.allocate(requirements.size_in_bytes, requirements.alignment) {
                    Ok(allocation) => {
                        found = Some(allocation);
                    },
                    Err(_) => {},
                }
            },
            None => {},
        }
        match found {
            Some(allocation) => {
                let id = ids.draw();
                let granted = allocation.with_id(id).with_requirements(requirements);
                proof {
                    let chunk = old(self)@.chunks[slot as int].unwrap();
                    assert(self@.chunks =~= old(self)@.after_placing(
                        chunk,
                        slot as int,
                        requirements,
                    ).chunks);
                }
                Some(granted)
            },
            None => {
                assert(self@.chunks =~= old(self)@.chunks);
                None
            },
        }
    }

    /// Allocate memory from the pool, with `inner` as the backing allocator
    /// that provides the chunks and `ids` as the source of the id of the
    /// allocation.
    pub fn allocate_with<A: ComposableAllocator>(
        &mut self,
        inner: &mut A,
        ids: &mut AllocationIdSource,
        requirements: AllocationRequirements,
    ) -> (result: Result<Allocation, AllocatorError>)
        requires
            old(self)@.wf(),
            old(inner).wf(),
            old(self)@.accepts(*old(inner), requirements),
        ensures
            final(self)@.wf(),
            final(inner).wf(),
            old(self)@.allocates(
                *old(inner),
                old(ids).spec_next(),
                requirements,
                final(self)@,
                *final(inner),
                result,
            ),
            final(ids).spec_next() == if result is Ok {
                next_id_after(old(ids).spec_next())
            } else {
                old(ids).spec_next()
            },
            final(self)@.memory_type_index == old(self)@.memory_type_index,
            final(self)@.chunk_size == old(self)@.chunk_size,
            final(self)@.page_size == old(self)@.page_size,
            forall|other: AllocationRequirements| #[trigger]
                final(inner).accepts(other) == old(inner).accepts(other),
            result matches Ok(allocation) ==> allocation@.wf() && allocation@.grants(requirements),
    {
        if self.memory_type_index != requirements.memory_type_index {
            return Err(AllocatorError::runtime("Memory type index mismatch"));
        }
        if !requirements.aligned_size_is_below(self.chunk_size) {
            return Err(AllocatorError::chunk_too_large(requirements.size_in_bytes));
        }
        // Attempt to allocate from an existing chunk.
        let mut slot: usize = 0;
        while slot < self.chunks.len()
            invariant
                slot <= self.chunks@.len(),
                self@ == old(self)@,
                self@.wf(),
                *inner == *old(inner),
                ids.spec_next() == old(ids).spec_next(),
                inner.wf(),
                requirements.alignment >= 1,
                !old(self)@.rejects_type(requirements),
                !old(self)@.rejects_size(requirements),
                forall|earlier: int| 0 <= earlier < slot ==> !self@.has_room(earlier, requirements),
            decreases self.chunks@.len() - slot,
        {
            match self.place_in_slot(slot, ids, requirements) {
                Some(allocation) => {
                    proof {
                        assert(old(self)@.has_room(slot as int, requirements));
                        lemma_first_with_room_is_unique(old(self)@, slot as int, requirements);
                    }
                    return Ok(allocation);
                },
                None => {},
            }
            slot = slot + 1;
        }
        assert(!exists|slot: int| old(self)@.has_room(slot, requirements));
        // Unable to allocate from an existing chunk, so create a new chunk
        // and allocate from it.
        let chunk_requirements = AllocationRequirements {
            alignment: 1,
            size_in_bytes: self.chunk_size,
            memory_type_index: self.memory_type_index,
            ..requirements
        };
        let backing = match inner.allocate(chunk_requirements) {
            Ok(backing) => backing,
            Err(error) => {
                return Err(error);
            },
        };
        let mut chunk = PageSuballocator::for_allocation(backing, self.page_size);
        let ghost fresh = chunk@;
        proof {
            assert(fresh.pages =~= old(self)@.fresh_chunk(backing@).pages);
            assert(fresh == old(self)@.fresh_chunk(backing@));
        }
        // Allocate using the newly created suballocator. Remember to free
        // the chunk if something goes wrong at this point.
        let allocation = match chunk.allocate(
            requirements.size_in_bytes,
            requirements.alignment,
        ) {
            Ok(allocation) => allocation,
            Err(error) => {
                inner.free(backing);
                return Err(error);
            },
        };
        let slot = self.find_slot_for_new_chunk();
        proof {
            lemma_slot_for_new_chunk_is_unique(old(self)@, slot as int);
        }
        if slot < self.chunks.len() {
            self.chunks.set(slot, Some(chunk));
        } else {
            self.chunks.push(Some(chunk));
        }
        let slot_count = self.chunks.len();
        assert(self@.chunks.len() == slot_count);
        let id = ids.draw();
        let granted = allocation.with_id(id).with_requirements(requirements);
        proof {
            let taken = fresh.after_allocate(requirements.size_in_bytes, requirements.alignment);
            assert(self@.chunks =~= old(self)@.after_placing(
                fresh,
                slot as int,
                requirements,
            ).chunks);
            assert(old(inner).allocates(chunk_requirements, inner, Ok(backing)));
            assert forall|other: int| 0 <= other < self@.chunks.len() implies (
            #[trigger] self@.chunks[other] matches Some(held) ==> {
                &&& held.wf()
                &&& held.page_size == self@.page_size
                &&& held.backing.size_in_bytes == self@.chunk_size
                &&& held.backing.memory_type_index == self@.memory_type_index
                &&& held.chunk_count >= 1
            }) by {
                if other == slot {
                    assert(self@.chunks[other] == Some(taken));
                } else {
                    assert(self@.chunks[other] == old(self)@.chunks[other]);
                }
            }
        }
        Ok(granted)
    }

    /// Return an allocation to the pool, with `inner` as the backing
    /// allocator that chunks are given back to.
    pub fn free_with<A: ComposableAllocator>(&mut self, inner: &mut A, allocation: Allocation)
        requires
            old(self)@.wf(),
            old(inner).wf(),
        ensures
            final(self)@.wf(),
            final(inner).wf(),
            old(self)@.frees(*old(inner), allocation, final(self)@, *final(inner)),
            final(self)@.memory_type_index == old(self)@.memory_type_index,
            final(self)@.chunk_size == old(self)@.chunk_size,
            final(self)@.page_size == old(self)@.page_size,
            forall|other: AllocationRequirements| #[trigger]
                final(inner).accepts(other) == old(inner).accepts(other),
    {
        let slot = match self.find_owner(&allocation) {
            Some(slot) => slot,
            None => {
                return ;
            },
        };
        let mut emptied = false;
        match &mut self.chunks[slot] {
            Some(chunk) => {
                chunk.free(allocation);
                emptied = chunk.is_empty();
            },
            None => {},
        }
        let ghost freed = old(self)@.chunks[slot as int].unwrap().after_free(allocation@);
        if emptied {
            match self.chunks[slot].take() {
                Some(chunk) => {
                    let backing = chunk.release_allocation();
                    inner.free(backing);
                    assert(self@.chunks =~= old(self)@.chunks.update(slot as int, None));
                },
                None => {},
            }
        } else {
            assert(self@.chunks =~= old(self)@.chunks.update(slot as int, Some(freed)));
        }
    }
}

/// An allocator for one memory type that owns a pool of chunks and the
/// backing allocator that the chunks come from.
pub struct MemoryTypePoolAllocator<Allocator: ComposableAllocator> {
    pool: ChunkPool,
    allocator: Allocator,
    ids: AllocationIdSource,
}

impl<Allocator: ComposableAllocator> MemoryTypePoolAllocator<Allocator> {
    /// The chunks of the pool.
    pub closed spec fn spec_pool(&self) -> ChunkPoolView {
        self.pool@
    }

    /// The backing allocator.
    pub closed spec fn spec_allocator(&self) -> Allocator {
        self.allocator
    }

    /// The number of the id that the next suballocation gets.
    pub closed spec fn spec_next_id(&self) -> u64 {
        self.ids.spec_next()
    }

    /// Create a new pool for a particular memory type index.
    ///
    /// * `memory_type_index`: the index of the specific memory type this
    ///   pool can allocate from.
    /// * `chunk_size`: the size of each chunk of memory to be divided into
    ///   pages.
    /// * `page_size`: chunks are divided into pages with this size for
    ///   allocation.
    /// * `allocator`: the backing allocator which provides device memory.
    ///
    /// Chunks must be evenly divisible into pages.
    pub fn new(
        memory_type_index: usize,
        chunk_size: u64,
        page_size: u64,
        allocator: Allocator,
    ) -> (pool: Self)
        requires
            page_size >= 1,
            chunk_size % page_size == 0,
            chunk_size / page_size <= usize::MAX,
        ensures
            pool.spec_allocator() == allocator,
            pool.spec_pool() == (ChunkPoolView {
                memory_type_index,
                chunk_size,
                page_size,
                chunks: Seq::empty(),
            }),
            pool.spec_pool().wf(),
            pool.spec_next_id() == 0,
    {
        Self {
            pool: ChunkPool::new(memory_type_index, chunk_size, page_size),
            allocator,
            ids: AllocationIdSource::new(),
        }
    }

    /// The backing allocator which provides the chunks.
    pub fn allocator(&self) -> (allocator: &Allocator)
        ensures
            *allocator == self.spec_allocator(),
    {
        &self.allocator
    }

    /// The number of chunks that the pool holds right now.
    pub fn chunk_count(&self) -> (count: usize)
        ensures
            count == self.spec_pool().held_count(),
            count == 0 <==> self.spec_pool().holds_nothing(),
    {
        self.pool.chunk_count()
    }
}

impl<Allocator: ComposableAllocator> ComposableAllocator for MemoryTypePoolAllocator<Allocator> {
    open spec fn wf(&self) -> bool {
        self.spec_pool().wf() && self.spec_allocator().wf()
    }

    open spec fn accepts(&self, requirements: AllocationRequirements) -> bool {
        self.spec_pool().accepts(self.spec_allocator(), requirements)
    }

    /// The pool allocates, with the allocator's own backing allocator and
    /// source of ids. The ids of the allocations that are granted are the
    /// numbers from zero on, one after the other.
    open spec fn allocates(
        &self,
        requirements: AllocationRequirements,
        after: &Self,
        result: Result<Allocation, AllocatorError>,
    ) -> bool {
        &&& self.spec_pool().allocates(
            self.spec_allocator(),
            self.spec_next_id(),
            requirements,
            after.spec_pool(),
            after.spec_allocator(),
            result,
        )
        &&& after.spec_next_id() == if result is Ok {
            next_id_after(self.spec_next_id())
        } else {
            self.spec_next_id()
        }
    }

    /// The pool frees, with the allocator's own backing allocator.
    open spec fn frees(&self, allocation: Allocation, after: &Self) -> bool {
        &&& self.spec_pool().frees(
            self.spec_allocator(),
            allocation,
            after.spec_pool(),
            after.spec_allocator(),
        )
        &&& after.spec_next_id() == self.spec_next_id()
    }

    fn allocate(&mut self, requirements: AllocationRequirements) -> (result: Result<
        Allocation,
        AllocatorError,
    >) {
        self.pool.allocate_with(&mut self.allocator, &mut self.ids, requirements)
    }

    fn free(&mut self, allocation: Allocation) {
        self.pool.free_with(&mut self.allocator, allocation)
    }
}

} // verus!
