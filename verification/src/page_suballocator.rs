//! An allocator which allocates chunks from an existing allocation.
//!
//! The backing allocation is divided into pages of one size. A request is
//! given a run of whole pages, found by first fit. Where the page boundaries
//! do not suit the alignment that is asked for, the request is given
//! `alignment - 1` bytes more and begins at the first aligned offset inside
//! its pages.
use crate::allocation::{
    next_id_after, Allocation, AllocationId, AllocationIdSource, AllocationView,
};
use crate::error::AllocatorError;
use crate::page_arena::{
    after_free, chunk_count, first_fit_start, is_first_fit, is_free_run, lemma_count_with_chunk,
    lemma_first_fit_exists, lemma_first_fit_is_unique, lemma_with_chunk_wf, marked_run,
    no_free_run, pages_wf, with_chunk, without_chunk, Page, PageArena,
};
use vstd::prelude::*;

verus! {

/// `top / bottom`, rounded towards positive infinity.
pub open spec fn spec_div_ceil(top: int, bottom: int) -> int {
    (top + bottom - 1) / bottom
}

/// Divide top/bottom, rounding towards positive infinity.
pub fn div_ceil(top: u64, bottom: u64) -> (quotient: u64)
    requires
        bottom > 0,
    ensures
        quotient == spec_div_ceil(top as int, bottom as int),
        quotient * bottom >= top,
        (quotient - 1) * bottom < top || quotient == 0,
{
    let whole = top / bottom;
    let rest = top % bottom;
    proof {
        let t = top as int;
        let b = bottom as int;
        assert(t == b * (t / b) + t % b) by (nonlinear_arith)
            requires
                b > 0,
        ;
        if rest == 0 {
            assert((t + b - 1) / b == t / b) by (nonlinear_arith)
                requires
                    b > 0,
                    t % b == 0,
                    t >= 0,
            ;
            assert((t / b) * b == t) by (nonlinear_arith)
                requires
                    b > 0,
                    t == b * (t / b) + t % b,
                    t % b == 0,
            ;
            assert((t / b - 1) * b < t || t / b == 0) by (nonlinear_arith)
                requires
                    b > 0,
                    (t / b) * b == t,
                    t >= 0,
            ;
        } else {
            assert((t + b - 1) / b == t / b + 1) by (nonlinear_arith)
                requires
                    b > 0,
                    0 < t % b < b,
                    t >= 0,
                    t == b * (t / b) + t % b,
            ;
            assert(b >= 2);
            assert(t / b <= t / 2) by (nonlinear_arith)
                requires
                    b >= 2,
                    t >= 0,
            ;
            assert((t / b + 1) * b >= t) by (nonlinear_arith)
                requires
                    b > 0,
                    0 < t % b < b,
                    t == b * (t / b) + t % b,
            ;
            assert((t / b) * b < t) by (nonlinear_arith)
                requires
                    b > 0,
                    0 < t % b < b,
                    t == b * (t / b) + t % b,
            ;
        }
    }
    if rest != 0 {
        whole + 1
    } else {
        whole
    }
}

/// The first multiple of `alignment` at or after `offset`.
pub open spec fn round_up(offset: int, alignment: int) -> int {
    if offset % alignment == 0 {
        offset
    } else {
        offset + alignment - offset % alignment
    }
}

/// A page suballocator, as contracts see it.
pub struct PageSuballocatorView {
    /// The allocation that is divided into pages.
    pub backing: AllocationView,
    /// The size of each page in bytes.
    pub page_size: u64,
    /// The pages of the backing allocation, in order.
    pub pages: Seq<Page>,
    /// The number of chunks that are allocated.
    pub chunk_count: nat,
    /// The id that the next suballocation gets.
    pub next_id: u64,
}

impl PageSuballocatorView {
    /// The invariant: the pages form whole chunks that are counted, and
    /// together they are the backing allocation.
    pub open spec fn wf(self) -> bool {
        &&& pages_wf(self.pages)
        &&& self.chunk_count == chunk_count(self.pages, self.pages.len() as int)
        &&& self.pages.len() <= usize::MAX
        &&& self.page_size >= 1
        &&& self.backing.wf()
        &&& self.pages.len() * self.page_size == self.backing.size_in_bytes
    }

    /// The page boundaries count as aligned for a request: the end of the
    /// first page is a multiple of the alignment.
    pub open spec fn boundaries_suit(self, alignment: u64) -> bool {
        (self.backing.offset_in_bytes + self.page_size) % alignment as int == 0
    }

    /// The bytes that are reserved for a request: its size where the page
    /// boundaries suit its alignment, and `alignment - 1` bytes more where
    /// they do not.
    pub open spec fn bytes_needed(self, size_in_bytes: u64, alignment: u64) -> int {
        if self.boundaries_suit(alignment) {
            size_in_bytes as int
        } else {
            size_in_bytes + alignment - 1
        }
    }

    /// The number of pages that are reserved for a request.
    pub open spec fn pages_needed(self, size_in_bytes: u64, alignment: u64) -> int {
        spec_div_ceil(self.bytes_needed(size_in_bytes, alignment), self.page_size as int)
    }

    /// A request can be placed: it needs at least one page, and as many
    /// pages as it needs are free in one run.
    pub open spec fn can_place(self, size_in_bytes: u64, alignment: u64) -> bool {
        let n = self.pages_needed(size_in_bytes, alignment);
        n >= 1 && exists|start: int| is_free_run(self.pages, start, n)
    }

    /// The first page of the run that a request is given: the lowest one at
    /// which enough free pages begin.
    pub open spec fn placement_start(self, size_in_bytes: u64, alignment: u64) -> int {
        first_fit_start(self.pages, self.pages_needed(size_in_bytes, alignment))
    }

    /// Where in the device memory a request is placed: at the beginning of
    /// its pages where the page boundaries suit its alignment, and at the
    /// first multiple of the alignment inside its pages where they do not.
    pub open spec fn placement_offset(self, size_in_bytes: u64, alignment: u64) -> int {
        let pages_begin = self.backing.offset_in_bytes + self.placement_start(
            size_in_bytes,
            alignment,
        ) * self.page_size;
        if self.boundaries_suit(alignment) {
            pages_begin
        } else {
            round_up(pages_begin, alignment as int)
        }
    }

    /// The suballocation that a request is given.
    pub open spec fn placed(self, size_in_bytes: u64, alignment: u64) -> AllocationView {
        self.backing.suballocation(
            (self.placement_offset(size_in_bytes, alignment)
                - self.backing.offset_in_bytes) as u64,
            size_in_bytes,
            alignment,
            AllocationId(self.next_id),
        )
    }

    /// The suballocator after `allocate`.
    pub open spec fn after_allocate(self, size_in_bytes: u64, alignment: u64) -> Self {
        if self.can_place(size_in_bytes, alignment) {
            PageSuballocatorView {
                pages: with_chunk(
                    self.pages,
                    self.placement_start(size_in_bytes, alignment),
                    self.pages_needed(size_in_bytes, alignment),
                ),
                chunk_count: self.chunk_count + 1,
                next_id: next_id_after(self.next_id),
                ..self
            }
        } else {
            self
        }
    }

    /// The allocation lies in this suballocator's device memory and does
    /// not begin before the backing allocation, so that it names a page.
    pub open spec fn can_hold(self, allocation: AllocationView) -> bool {
        &&& allocation.memory == self.backing.memory
        &&& allocation.offset_in_bytes >= self.backing.offset_in_bytes
    }

    /// The page that an allocation begins in.
    pub open spec fn page_of(self, allocation: AllocationView) -> int {
        (allocation.offset_in_bytes - self.backing.offset_in_bytes) / self.page_size as int
    }

    /// The page that the last byte of an allocation lies in.
    pub open spec fn last_page_of(self, allocation: AllocationView) -> int {
        (allocation.end() - 1 - self.backing.offset_in_bytes) / self.page_size as int
    }

    /// The suballocator after `free`.
    pub open spec fn after_free(self, allocation: AllocationView) -> Self {
        if self.can_hold(allocation) {
            let index = self.page_of(allocation);
            PageSuballocatorView {
                pages: after_free(self.pages, index),
                chunk_count: if index < self.pages.len() && self.pages[index] != Page::Free {
                    (self.chunk_count - 1) as nat
                } else {
                    self.chunk_count
                },
                ..self
            }
        } else {
            self
        }
    }

    /// The allocation is at least a byte long and occupies only pages of
    /// the chunk that begins at page `first`.
    pub open spec fn occupies(self, allocation: AllocationView, first: int) -> bool {
        &&& 0 <= first < self.pages.len()
        &&& allocation.memory == self.backing.memory
        &&& allocation.size_in_bytes >= 1
        &&& self.backing.offset_in_bytes <= allocation.offset_in_bytes
        &&& allocation.end() <= self.backing.end()
        &&& forall|index: int|
            self.page_of(allocation) <= index <= self.last_page_of(allocation)
                ==> #[trigger] self.pages[index] == (Page::Allocated {
                first_in_chunk: first as usize,
            })
    }
}

/// Division by a page size keeps the order of offsets.
proof fn lemma_page_index_monotonic(low: int, high: int, page_size: int)
    requires
        0 <= low <= high,
        page_size >= 1,
    ensures
        0 <= low / page_size <= high / page_size,
{
    assert(0 <= low / page_size <= high / page_size) by (nonlinear_arith)
        requires
            0 <= low <= high,
            page_size >= 1,
    ;
}

/// The bytes of the pages `[start, start + n)` are the offsets whose page
/// index lies in that range.
proof fn lemma_page_index_in_run(relative: int, start: int, n: int, page_size: int)
    requires
        page_size >= 1,
        0 <= start,
        start * page_size <= relative < (start + n) * page_size,
    ensures
        start <= relative / page_size < start + n,
{
    assert(start <= relative / page_size < start + n) by (nonlinear_arith)
        requires
            page_size >= 1,
            0 <= start,
            start * page_size <= relative < (start + n) * page_size,
    ;
}

/// Live suballocations never overlap: two allocations that occupy pages of
/// different chunks of one suballocator share no byte.
pub proof fn lemma_suballocations_do_not_overlap(
    suballocator: PageSuballocatorView,
    one: AllocationView,
    one_first: int,
    other: AllocationView,
    other_first: int,
)
    requires
        suballocator.wf(),
        suballocator.occupies(one, one_first),
        suballocator.occupies(other, other_first),
        one_first != other_first,
    ensures
        !one.overlaps(other),
{
    if one.overlaps(other) {
        let base = suballocator.backing.offset_in_bytes as int;
        let page_size = suballocator.page_size as int;
        // The later of the two beginnings lies in both allocations.
        let shared = if one.offset_in_bytes >= other.offset_in_bytes {
            one.offset_in_bytes as int
        } else {
            other.offset_in_bytes as int
        };
        let index = (shared - base) / page_size;
        lemma_page_index_monotonic(one.offset_in_bytes - base, shared - base, page_size);
        lemma_page_index_monotonic(shared - base, one.end() - 1 - base, page_size);
        lemma_page_index_monotonic(other.offset_in_bytes - base, shared - base, page_size);
        lemma_page_index_monotonic(shared - base, other.end() - 1 - base, page_size);
        assert(suballocator.pages[index] == (Page::Allocated {
            first_in_chunk: one_first as usize,
        }));
        assert(suballocator.pages[index] == (Page::Allocated {
            first_in_chunk: other_first as usize,
        }));
    }
}

/// Where a request can be placed, its pages are the first run of free pages
/// that is long enough, its bytes lie within those pages, and the
/// suballocator stays well-formed. A request of at least a byte occupies the
/// chunk of pages that it was given.
pub proof fn lemma_placement(suballocator: PageSuballocatorView, size_in_bytes: u64, alignment: u64)
    requires
        suballocator.wf(),
        alignment >= 1,
        suballocator.can_place(size_in_bytes, alignment),
    ensures
        is_first_fit(
            suballocator.pages,
            suballocator.placement_start(size_in_bytes, alignment),
            suballocator.pages_needed(size_in_bytes, alignment),
        ),
        suballocator.backing.offset_in_bytes + suballocator.placement_start(
            size_in_bytes,
            alignment,
        ) * suballocator.page_size <= suballocator.placement_offset(size_in_bytes, alignment),
        suballocator.placement_offset(size_in_bytes, alignment) + size_in_bytes
            <= suballocator.backing.offset_in_bytes + (suballocator.placement_start(
            size_in_bytes,
            alignment,
        ) + suballocator.pages_needed(size_in_bytes, alignment)) * suballocator.page_size,
        suballocator.placement_offset(size_in_bytes, alignment) + size_in_bytes
            <= suballocator.backing.end(),
        suballocator.placed(size_in_bytes, alignment).offset_in_bytes
            == suballocator.placement_offset(size_in_bytes, alignment),
        suballocator.after_allocate(size_in_bytes, alignment).wf(),
        size_in_bytes >= 1 ==> suballocator.after_allocate(size_in_bytes, alignment).occupies(
            suballocator.placed(size_in_bytes, alignment),
            suballocator.placement_start(size_in_bytes, alignment),
        ),
{
    let n = suballocator.pages_needed(size_in_bytes, alignment);
    let bytes = suballocator.bytes_needed(size_in_bytes, alignment);
    let start = suballocator.placement_start(size_in_bytes, alignment);
    let base = suballocator.backing.offset_in_bytes as int;
    let page = suballocator.page_size as int;
    let len = suballocator.pages.len() as int;
    let witness = choose|at: int| is_free_run(suballocator.pages, at, n);
    lemma_first_fit_exists(suballocator.pages, witness, n);
    assert(is_free_run(suballocator.pages, start, n));
    assert(n * page >= bytes) by (nonlinear_arith)
        requires
            n == (bytes + page - 1) / page,
            page >= 1,
    ;
    assert((start + n) * page == start * page + n * page) by (nonlinear_arith);
    assert((start + n) * page <= len * page) by (nonlinear_arith)
        requires
            start + n <= len,
            page >= 1,
    ;
    assert(0 <= start * page) by (nonlinear_arith)
        requires
            start >= 0,
            page >= 1,
    ;
    let pages_begin = base + start * page;
    lemma_round_up(pages_begin, alignment as int);
    let offset = suballocator.placement_offset(size_in_bytes, alignment);
    assert(pages_begin <= offset);
    assert(offset + size_in_bytes <= base + (start + n) * page);
    let after = suballocator.after_allocate(size_in_bytes, alignment);
    lemma_with_chunk_wf(suballocator.pages, start, n);
    lemma_count_with_chunk(suballocator.pages, start, n, len);
    let placed = suballocator.placed(size_in_bytes, alignment);
    assert(placed.offset_in_bytes == offset);
    if size_in_bytes >= 1 {
        let first_byte = offset - base;
        let last_byte = offset + size_in_bytes - 1 - base;
        lemma_page_index_in_run(first_byte, start, n, page);
        lemma_page_index_in_run(last_byte, start, n, page);
        assert forall|index: int|
            after.page_of(placed) <= index <= after.last_page_of(placed) implies #[trigger] after.pages[index]
            == (Page::Allocated { first_in_chunk: start as usize }) by {
            assert(start <= index < start + n);
        }
    }
}

/// What an allocation occupies is a chunk: its first page is marked as the
/// beginning of a chunk.
pub proof fn lemma_occupied_chunk_has_a_head(
    suballocator: PageSuballocatorView,
    allocation: AllocationView,
    first: int,
)
    requires
        suballocator.wf(),
        suballocator.occupies(allocation, first),
    ensures
        suballocator.pages[first] == (Page::Allocated { first_in_chunk: first as usize }),
        0 <= suballocator.page_of(allocation) <= suballocator.last_page_of(allocation)
            < suballocator.pages.len(),
        suballocator.pages[suballocator.page_of(allocation)] == (Page::Allocated {
            first_in_chunk: first as usize,
        }),
{
    let base = suballocator.backing.offset_in_bytes as int;
    let page = suballocator.page_size as int;
    let len = suballocator.pages.len() as int;
    let index = suballocator.page_of(allocation);
    lemma_page_index_monotonic(allocation.offset_in_bytes - base, allocation.end() - 1 - base, page);
    assert(0 * page == 0) by (nonlinear_arith);
    assert((0 + len) * page == len * page) by (nonlinear_arith);
    lemma_page_index_in_run(allocation.end() - 1 - base, 0, len, page);
    assert(suballocator.pages[index] == (Page::Allocated { first_in_chunk: first as usize }));
    assert(marked_run(suballocator.pages, first, index));
}

/// An allocation goes on occupying its chunk when another request is
/// placed, and the new request is given another chunk.
pub proof fn lemma_allocate_keeps_suballocations(
    suballocator: PageSuballocatorView,
    allocation: AllocationView,
    first: int,
    size_in_bytes: u64,
    alignment: u64,
)
    requires
        suballocator.wf(),
        alignment >= 1,
        suballocator.occupies(allocation, first),
        suballocator.can_place(size_in_bytes, alignment),
    ensures
        suballocator.after_allocate(size_in_bytes, alignment).occupies(allocation, first),
        suballocator.placement_start(size_in_bytes, alignment) != first,
{
    lemma_placement(suballocator, size_in_bytes, alignment);
    lemma_occupied_chunk_has_a_head(suballocator, allocation, first);
    let start = suballocator.placement_start(size_in_bytes, alignment);
    let n = suballocator.pages_needed(size_in_bytes, alignment);
    let after = suballocator.after_allocate(size_in_bytes, alignment);
    let base = suballocator.backing.offset_in_bytes as int;
    let page = suballocator.page_size as int;
    assert(suballocator.pages[start] == Page::Free);
    assert forall|index: int|
        after.page_of(allocation) <= index <= after.last_page_of(allocation) implies #[trigger] after.pages[index]
        == (Page::Allocated { first_in_chunk: first as usize }) by {
        assert(0 <= index < suballocator.pages.len());
        assert(suballocator.pages[index] == (Page::Allocated { first_in_chunk: first as usize }));
        if start <= index < start + n {
            assert(suballocator.pages[index] == Page::Free);
        }
    }
}

/// An allocation goes on occupying its chunk when an allocation that does
/// not begin in that chunk is freed.
pub proof fn lemma_free_keeps_other_suballocations(
    suballocator: PageSuballocatorView,
    allocation: AllocationView,
    first: int,
    freed: AllocationView,
)
    requires
        suballocator.wf(),
        suballocator.occupies(allocation, first),
        !(suballocator.can_hold(freed) && 0 <= suballocator.page_of(freed)
            < suballocator.pages.len() && suballocator.pages[suballocator.page_of(freed)] == (
        Page::Allocated { first_in_chunk: first as usize })),
    ensures
        suballocator.after_free(freed).occupies(allocation, first),
{
    let after = suballocator.after_free(freed);
    let base = suballocator.backing.offset_in_bytes as int;
    let page = suballocator.page_size as int;
    lemma_occupied_chunk_has_a_head(suballocator, allocation, first);
    assert forall|index: int|
        after.page_of(allocation) <= index <= after.last_page_of(allocation) implies #[trigger] after.pages[index]
        == (Page::Allocated { first_in_chunk: first as usize }) by {
        assert(0 <= index < suballocator.pages.len());
        assert(suballocator.pages[index] == (Page::Allocated { first_in_chunk: first as usize }));
    }
}

/// Freeing an allocation frees the chunk that it occupies, and nothing
/// else: the pages of the chunk are free again, and one chunk fewer is
/// allocated.
pub proof fn lemma_free_frees_the_occupied_chunk(
    suballocator: PageSuballocatorView,
    allocation: AllocationView,
    first: int,
)
    requires
        suballocator.wf(),
        suballocator.occupies(allocation, first),
    ensures
        suballocator.after_free(allocation).pages == without_chunk(suballocator.pages, first),
        suballocator.after_free(allocation).chunk_count + 1 == suballocator.chunk_count,
{
    lemma_occupied_chunk_has_a_head(suballocator, allocation, first);
    let index = suballocator.page_of(allocation);
    crate::page_arena::lemma_count_without_chunk(
        suballocator.pages,
        first,
        suballocator.pages.len() as int,
    );
}

/// A request that is placed shares no byte with an allocation that
/// occupies a chunk: live suballocations never overlap.
pub proof fn lemma_new_suballocation_overlaps_no_other(
    suballocator: PageSuballocatorView,
    allocation: AllocationView,
    first: int,
    size_in_bytes: u64,
    alignment: u64,
)
    requires
        suballocator.wf(),
        alignment >= 1,
        suballocator.occupies(allocation, first),
        suballocator.can_place(size_in_bytes, alignment),
    ensures
        !suballocator.placed(size_in_bytes, alignment).overlaps(allocation),
{
    lemma_placement(suballocator, size_in_bytes, alignment);
    lemma_allocate_keeps_suballocations(suballocator, allocation, first, size_in_bytes, alignment);
    let after = suballocator.after_allocate(size_in_bytes, alignment);
    let placed = suballocator.placed(size_in_bytes, alignment);
    if size_in_bytes >= 1 {
        lemma_suballocations_do_not_overlap(
            after,
            placed,
            suballocator.placement_start(size_in_bytes, alignment),
            allocation,
            first,
        );
    } else {
        // No byte belongs to an allocation without bytes, but its offset
        // may still lie inside another allocation's range.
        let start = suballocator.placement_start(size_in_bytes, alignment);
        let n = suballocator.pages_needed(size_in_bytes, alignment);
        let base = suballocator.backing.offset_in_bytes as int;
        let page = suballocator.page_size as int;
        if placed.overlaps(allocation) {
            // Then a byte at or just before the new offset belongs to the
            // other allocation, and lies in a page that was free.
            let offset = placed.offset_in_bytes as int;
            lemma_occupied_chunk_has_a_head(suballocator, allocation, first);
            assert(allocation.offset_in_bytes < offset < allocation.end());
            assert(n * page >= 1) by (nonlinear_arith)
                requires
                    n >= 1,
                    page >= 1,
            ;
            assert((start + n) * page == start * page + n * page) by (nonlinear_arith);
            let shared = if offset - base < (start + n) * page {
                offset
            } else {
                offset - 1
            };
            lemma_page_index_monotonic(allocation.offset_in_bytes - base, shared - base, page);
            lemma_page_index_monotonic(shared - base, allocation.end() - 1 - base, page);
            lemma_page_index_in_run(shared - base, start, n, page);
            let index = (shared - base) / page;
            assert(suballocator.pages[index] == (Page::Allocated {
                first_in_chunk: first as usize,
            }));
            assert(suballocator.pages[index] == Page::Free);
        }
    }
}

/// A request is placed at a multiple of its alignment, unless the page
/// boundaries only seem to suit it: the end of the first page is a multiple
/// of the alignment while the beginning of the backing allocation is not.
pub proof fn lemma_placement_is_aligned(
    suballocator: PageSuballocatorView,
    size_in_bytes: u64,
    alignment: u64,
)
    requires
        suballocator.wf(),
        alignment >= 1,
        suballocator.can_place(size_in_bytes, alignment),
        suballocator.boundaries_suit(alignment) ==> suballocator.backing.offset_in_bytes
            % alignment == 0,
    ensures
        suballocator.placement_offset(size_in_bytes, alignment) % alignment as int == 0,
{
    let base = suballocator.backing.offset_in_bytes as int;
    let page_size = suballocator.page_size as int;
    let a = alignment as int;
    let start = suballocator.placement_start(size_in_bytes, alignment);
    let pages_begin = base + start * page_size;
    if suballocator.boundaries_suit(alignment) {
        vstd::arithmetic::div_mod::lemma_add_mod_noop(base, page_size, a);
        vstd::arithmetic::div_mod::lemma_small_mod((page_size % a) as nat, a as nat);
        assert(page_size % a == 0);
        vstd::arithmetic::div_mod::lemma_mul_mod_noop_right(start, page_size, a);
        assert(start * (page_size % a) == 0) by (nonlinear_arith)
            requires
                page_size % a == 0,
        ;
        assert((start * page_size) % a == 0);
        vstd::arithmetic::div_mod::lemma_add_mod_noop(base, start * page_size, a);
    } else {
        lemma_round_up(pages_begin, a);
    }
}

/// Rounding up gives a multiple of the alignment that is less than one
/// alignment away.
proof fn lemma_round_up(offset: int, alignment: int)
    requires
        alignment >= 1,
    ensures
        round_up(offset, alignment) % alignment == 0,
        offset <= round_up(offset, alignment) <= offset + alignment - 1,
{
    assert(0 <= offset % alignment < alignment) by (nonlinear_arith)
        requires
            alignment >= 1,
    ;
    if offset % alignment != 0 {
        vstd::arithmetic::div_mod::lemma_fundamental_div_mod(offset, alignment);
        vstd::arithmetic::div_mod::lemma_mod_multiples_basic(offset / alignment + 1, alignment);
        assert(offset + alignment - offset % alignment == (offset / alignment + 1) * alignment)
            by (nonlinear_arith)
            requires
                offset == alignment * (offset / alignment) + offset % alignment,
        ;
    }
}

/// An allocator which hands out parts of one existing allocation, page by
/// page.
pub struct PageSuballocator {
    allocation: Allocation,
    page_size_in_bytes: u64,
    arena: PageArena,
    ids: AllocationIdSource,
}

impl View for PageSuballocator {
    type V = PageSuballocatorView;

    closed spec fn view(&self) -> PageSuballocatorView {
        PageSuballocatorView {
            backing: self.allocation@,
            page_size: self.page_size_in_bytes,
            pages: self.arena@,
            chunk_count: self.arena.count(),
            next_id: self.ids.spec_next(),
        }
    }
}

impl PageSuballocator {
    /// Create an allocator which takes memory from an existing allocation.
    ///
    /// * `allocation`: the allocation to use for suballocations.
    /// * `page_size_in_bytes`: the size of each page in the allocation. The
    ///   trade-off is that larger pages can waste memory for small
    ///   allocations while small pages will increase allocation time.
    ///
    /// The size of the allocation must be a multiple of the page size.
    pub fn for_allocation(allocation: Allocation, page_size_in_bytes: u64) -> (suballocator: Self)
        requires
            page_size_in_bytes >= 1,
            allocation@.size_in_bytes % page_size_in_bytes == 0,
            allocation@.size_in_bytes / page_size_in_bytes <= usize::MAX,
            allocation@.wf(),
        ensures
            suballocator@.wf(),
            suballocator@.backing == allocation@,
            suballocator@.page_size == page_size_in_bytes,
            suballocator@.pages.len() == allocation@.size_in_bytes / page_size_in_bytes,
            forall|index: int|
                0 <= index < suballocator@.pages.len() ==> suballocator@.pages[index]
                    == Page::Free,
            suballocator@.chunk_count == 0,
            suballocator@.next_id == 0,
    {
        let page_count = allocation.size_in_bytes() / page_size_in_bytes;
        proof {
            let size = allocation@.size_in_bytes as int;
            let page = page_size_in_bytes as int;
            assert((size / page) * page == size) by (nonlinear_arith)
                requires
                    page >= 1,
                    size % page == 0,
                    size >= 0,
            ;
        }
        Self {
            allocation,
            page_size_in_bytes,
            arena: PageArena::new(page_count as usize),
            ids: AllocationIdSource::new(),
        }
    }

    /// Releases ownership of the underlying allocation and discards the
    /// pages. All suballocations must have been freed.
    pub fn release_allocation(self) -> (allocation: Allocation)
        requires
            self@.chunk_count == 0,
        ensures
            allocation@ == self@.backing,
    {
        self.allocation
    }

    /// The allocation that is being divided.
    pub fn allocation(&self) -> (allocation: &Allocation)
        ensures
            allocation@ == self@.backing,
    {
        &self.allocation
    }

    /// Returns true when all suballocations have been freed.
    pub fn is_empty(&self) -> (empty: bool)
        ensures
            empty <==> self@.chunk_count == 0,
            self@.wf() ==> (empty <==> forall|index: int|
                0 <= index < self@.pages.len() ==> self@.pages[index] == Page::Free),
    {
        self.arena.is_empty()
    }

    /// Reserve a run of pages that holds `bytes` bytes. Returns the first
    /// page of the run.
    fn reserve_pages(&mut self, bytes: u64) -> (reserved: Option<usize>)
        requires
            old(self)@.wf(),
        ensures
            final(self)@.wf(),
            final(self)@.backing == old(self)@.backing,
            final(self)@.page_size == old(self)@.page_size,
            final(self)@.next_id == old(self)@.next_id,
            match reserved {
                Some(start) => {
                    let n = spec_div_ceil(bytes as int, old(self)@.page_size as int);
                    &&& n >= 1
                    &&& is_first_fit(old(self)@.pages, start as int, n)
                    &&& final(self)@.pages == with_chunk(old(self)@.pages, start as int, n)
                    &&& final(self)@.chunk_count == old(self)@.chunk_count + 1
                    &&& (start + n) * old(self)@.page_size <= old(self)@.backing.size_in_bytes
                    &&& n * old(self)@.page_size >= bytes
                },
                None => {
                    let n = spec_div_ceil(bytes as int, old(self)@.page_size as int);
                    &&& n < 1 || no_free_run(old(self)@.pages, n)
                    &&& final(self)@ == old(self)@
                },
            },
    {
        let page_count = div_ceil(bytes, self.page_size_in_bytes);
        if page_count > usize::MAX as u64 {
            proof {
                assert forall|start: int| !is_free_run(self@.pages, start, page_count as int) by {}
            }
            return None;
        }
        let reserved = self.arena.allocate_chunk(page_count as usize);
        proof {
            if let Some(start) = reserved {
                let n = page_count as int;
                let page = self@.page_size as int;
                let len = old(self)@.pages.len() as int;
                assert((start + n) * page <= len * page) by (nonlinear_arith)
                    requires
                        start + n <= len,
                        page >= 1,
                ;
            }
        }
        reserved
    }

    /// The id for the next suballocation.
    fn take_id(&mut self) -> (id: AllocationId)
        ensures
            id == AllocationId(old(self)@.next_id),
            final(self)@ == (PageSuballocatorView {
                next_id: next_id_after(old(self)@.next_id),
                ..old(self)@
            }),
    {
        self.ids.draw()
    }

    /// Suballocate a region of memory.
    ///
    /// * `size_in_bytes`: the required size of the allocation.
    /// * `alignment`: the required alignment of the allocation.
    ///
    /// The caller must free the returned allocation, and synchronizes
    /// access to the underlying memory.
    ///
    /// Fails, and changes nothing, exactly when the pages that the request
    /// needs are not free in one run.
    pub fn allocate(&mut self, size_in_bytes: u64, alignment: u64) -> (result: Result<
        Allocation,
        AllocatorError,
    >)
        requires
            old(self)@.wf(),
            alignment >= 1,
        ensures
            final(self)@.wf(),
            final(self)@ == old(self)@.after_allocate(size_in_bytes, alignment),
            match result {
                Ok(allocation) => {
                    &&& old(self)@.can_place(size_in_bytes, alignment)
                    &&& allocation@ == old(self)@.placed(size_in_bytes, alignment)
                    &&& allocation@.offset_in_bytes == old(self)@.placement_offset(
                        size_in_bytes,
                        alignment,
                    )
                    &&& allocation@.wf()
                    &&& allocation@.end() <= old(self)@.backing.end()
                    &&& size_in_bytes >= 1 ==> final(self)@.occupies(
                        allocation@,
                        old(self)@.placement_start(size_in_bytes, alignment),
                    )
                },
                Err(error) => {
                    &&& !old(self)@.can_place(size_in_bytes, alignment)
                    &&& error.is_runtime_error(
                        "Unable to find a contiguous chunk of the requseted size."@,
                    )
                },
            },
    {
        let base = self.allocation.offset_in_bytes();
        let boundaries_suit = (base as u128 + self.page_size_in_bytes as u128) % (
        alignment as u128) == 0;
        let bytes = if boundaries_suit {
            size_in_bytes
        } else {
            // Add enough additional size that the offset can be aligned.
            match size_in_bytes.checked_add(alignment - 1) {
                Some(bytes) => bytes,
                None => {
                    proof {
                        self.lemma_too_many_bytes_need_too_many_pages(size_in_bytes, alignment);
                    }
                    return Err(
                        AllocatorError::runtime(
                            "Unable to find a contiguous chunk of the requseted size.",
                        ),
                    );
                },
            }
        };
        let ghost before = self@;
        assert(boundaries_suit == before.boundaries_suit(alignment));
        assert(bytes == before.bytes_needed(size_in_bytes, alignment));
        let start = match self.reserve_pages(bytes) {
            Some(start) => start,
            None => {
                return Err(
                    AllocatorError::runtime(
                        "Unable to find a contiguous chunk of the requseted size.",
                    ),
                );
            },
        };
        proof {
            let n = before.pages_needed(size_in_bytes, alignment);
            assert(is_free_run(before.pages, start as int, n));
            lemma_first_fit_is_unique(before.pages, start as int, n);
            lemma_placement(before, size_in_bytes, alignment);
            assert(0 <= start * before.page_size) by (nonlinear_arith)
                requires
                    start >= 0,
                    before.page_size >= 1,
            ;
        }
        let pages_begin = base + start as u64 * self.page_size_in_bytes;
        // How many bytes must the offset be advanced to reach the next
        // aligned value? Fewer than the alignment, so the correction always
        // leaves enough space for the requested size.
        let alignment_correction = if boundaries_suit || pages_begin % alignment == 0 {
            0
        } else {
            alignment - pages_begin % alignment
        };
        assert(pages_begin + alignment_correction == before.placement_offset(
            size_in_bytes,
            alignment,
        ));
        let relative = start as u64 * self.page_size_in_bytes + alignment_correction;
        let id = self.take_id();
        let allocation = Allocation::suballocate(
            &self.allocation,
            relative,
            size_in_bytes,
            alignment,
            id,
        );
        Ok(allocation)
    }

    /// A request whose bytes, with the room for aligning them, do not fit a
    /// `u64` needs more pages than any backing allocation has.
    proof fn lemma_too_many_bytes_need_too_many_pages(&self, size_in_bytes: u64, alignment: u64)
        requires
            self@.wf(),
            alignment >= 1,
            !self@.boundaries_suit(alignment),
            size_in_bytes + alignment - 1 > u64::MAX,
        ensures
            !self@.can_place(size_in_bytes, alignment),
    {
        let n = self@.pages_needed(size_in_bytes, alignment);
        let bytes = size_in_bytes + alignment - 1;
        let page = self@.page_size as int;
        let len = self@.pages.len() as int;
        assert(n * page >= bytes) by (nonlinear_arith)
            requires
                n == (bytes + page - 1) / page,
                page >= 1,
                bytes >= 0,
        ;
        assert forall|start: int| !is_free_run(self@.pages, start, n) by {
            if is_free_run(self@.pages, start, n) {
                assert(n * page <= len * page) by (nonlinear_arith)
                    requires
                        n <= len,
                        page >= 1,
                ;
            }
        }
    }

    /// Suballocate a region of memory without considering alignment: the
    /// region begins at a page boundary.
    ///
    /// Fails, and changes nothing, exactly when the pages that hold
    /// `size_in_bytes` bytes are not free in one run.
    pub fn allocate_unaligned(&mut self, size_in_bytes: u64) -> (result: Result<
        Allocation,
        AllocatorError,
    >)
        requires
            old(self)@.wf(),
        ensures
            final(self)@.wf(),
            final(self)@ == old(self)@.after_allocate(size_in_bytes, 1),
            match result {
                Ok(allocation) => {
                    &&& old(self)@.can_place(size_in_bytes, 1)
                    &&& allocation@ == old(self)@.placed(size_in_bytes, 1)
                    &&& allocation@.wf()
                },
                Err(error) => {
                    &&& !old(self)@.can_place(size_in_bytes, 1)
                    &&& error.is_runtime_error(
                        "Unable to find a contiguous chunk of the requseted size."@,
                    )
                },
            },
    {
        self.allocate(size_in_bytes, 1)
    }

    /// Free a previously suballocated chunk of memory.
    ///
    /// The chunk of pages in which the allocation begins is freed. An
    /// allocation from another device memory is ignored, and so is one that
    /// begins before the backing allocation or behind it.
    pub fn free(&mut self, allocation: Allocation)
        requires
            old(self)@.wf(),
        ensures
            final(self)@.wf(),
            final(self)@ == old(self)@.after_free(allocation@),
    {
        if self.allocation.memory() != allocation.memory() {
            return ;
        }
        if allocation.offset_in_bytes() < self.allocation.offset_in_bytes() {
            return ;
        }
        let relative_offset = allocation.offset_in_bytes() - self.allocation.offset_in_bytes();
        // It is fine to round down here because the page can be anywhere in
        // the chunk: an offset that was advanced to an aligned value still
        // lies in the pages that were reserved for it.
        let page_index = relative_offset / self.page_size_in_bytes;
        if page_index > usize::MAX as u64 {
            return ;
        }
        self.arena.free_chunk(page_index as usize);
    }
}

} // verus!
