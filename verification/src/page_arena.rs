//! Pages, chunks and the arena that hands them out.
//!
//! * Page: a single unit of memory with a fixed size.
//! * Arena: a collection of contiguous pages.
//! * Chunk: a contiguous run of pages that was allocated from the arena in
//!   one piece. Every page of a chunk remembers where the chunk begins, so a
//!   chunk can be freed from any page index inside it.
use vstd::prelude::*;

verus! {

/// A single unit of memory with a fixed size. Pages are allocated in
/// contiguous chunks and each keeps track of where its chunk begins.
#[derive(Copy, Clone, PartialEq, Eq, Debug, Structural)]
pub enum Page {
    Free,
    Allocated {
        /// The index of the first page of the chunk that holds this page.
        first_in_chunk: usize,
    },
}

/// The page at `k` is the first page of a chunk.
pub open spec fn is_chunk_head(pages: Seq<Page>, k: int) -> bool {
    0 <= k < pages.len() && pages[k] == (Page::Allocated { first_in_chunk: k as usize })
}

/// The number of chunks that begin among the first `n` pages.
pub open spec fn chunk_count(pages: Seq<Page>, n: int) -> nat
    decreases n,
{
    if n <= 0 {
        0
    } else {
        chunk_count(pages, n - 1) + if is_chunk_head(pages, n - 1) {
            1nat
        } else {
            0nat
        }
    }
}

/// Every page from `first` up to and including `last` belongs to the chunk
/// that begins at `first`.
pub open spec fn marked_run(pages: Seq<Page>, first: int, last: int) -> bool {
    forall|j: int|
        first <= j <= last ==> #[trigger] pages[j] == (Page::Allocated {
            first_in_chunk: first as usize,
        })
}

/// The chunk structure of an arena: an allocated page names a chunk start at
/// or before itself, and everything from that start up to the page belongs
/// to the same chunk. The pages of one chunk are therefore one contiguous run
/// that begins at the page they all name.
pub open spec fn pages_wf(pages: Seq<Page>) -> bool {
    forall|i: int|
        0 <= i < pages.len() ==> match #[trigger] pages[i] {
            Page::Free => true,
            Page::Allocated { first_in_chunk } => first_in_chunk <= i && marked_run(
                pages,
                first_in_chunk as int,
                i,
            ),
        }
}

/// The page at `index` fits the chunk structure as far as its neighbour
/// tells: an allocated page names a chunk start at or before itself, and
/// unless it is that start, the page before it belongs to the same chunk.
pub open spec fn follows_its_chunk(pages: Seq<Page>, index: int) -> bool {
    match pages[index] {
        Page::Free => true,
        Page::Allocated { first_in_chunk } => first_in_chunk <= index && (first_in_chunk < index
            ==> pages[index - 1] == pages[index]),
    }
}

/// Pages that each follow their chunk form whole chunks, and the other way
/// round.
pub proof fn lemma_chunks_are_linked_pages(pages: Seq<Page>)
    ensures
        pages_wf(pages) <==> forall|index: int|
            0 <= index < pages.len() ==> follows_its_chunk(pages, index),
{
    if pages_wf(pages) {
        assert forall|index: int| 0 <= index < pages.len() implies follows_its_chunk(
            pages,
            index,
        ) by {
            match pages[index] {
                Page::Free => {},
                Page::Allocated { first_in_chunk } => {
                    assert(marked_run(pages, first_in_chunk as int, index));
                    if first_in_chunk < index {
                        assert(pages[index - 1] == pages[index]);
                    }
                },
            }
        }
    }
    if forall|index: int| 0 <= index < pages.len() ==> follows_its_chunk(pages, index) {
        assert forall|index: int| 0 <= index < pages.len() implies match #[trigger] pages[index] {
            Page::Free => true,
            Page::Allocated { first_in_chunk } => first_in_chunk <= index && marked_run(
                pages,
                first_in_chunk as int,
                index,
            ),
        } by {
            lemma_linked_pages_are_marked(pages, index);
        }
    }
}

/// Where every page up to `index` follows its chunk, the chunk of the page
/// at `index` is marked from its start up to that page.
proof fn lemma_linked_pages_are_marked(pages: Seq<Page>, index: int)
    requires
        0 <= index < pages.len(),
        forall|earlier: int| 0 <= earlier <= index ==> follows_its_chunk(pages, earlier),
    ensures
        match pages[index] {
            Page::Free => true,
            Page::Allocated { first_in_chunk } => first_in_chunk <= index && marked_run(
                pages,
                first_in_chunk as int,
                index,
            ),
        },
    decreases index,
{
    assert(follows_its_chunk(pages, index));
    match pages[index] {
        Page::Free => {},
        Page::Allocated { first_in_chunk } => {
            if first_in_chunk < index {
                lemma_linked_pages_are_marked(pages, index - 1);
                assert(marked_run(pages, first_in_chunk as int, index - 1));
                assert forall|j: int| first_in_chunk <= j <= index implies #[trigger] pages[j]
                    == (Page::Allocated { first_in_chunk }) by {
                    if j < index {
                    }
                }
            }
        },
    }
}

/// The `n` pages that begin at `start` exist and are all free.
pub open spec fn is_free_run(pages: Seq<Page>, start: int, n: int) -> bool {
    &&& 0 <= start
    &&& 0 <= n
    &&& start + n <= pages.len()
    &&& forall|j: int| start <= j < start + n ==> #[trigger] pages[j] == Page::Free
}

/// `start` is where a first-fit search for `n` free pages ends: the lowest
/// index at which `n` contiguous free pages begin.
pub open spec fn is_first_fit(pages: Seq<Page>, start: int, n: int) -> bool {
    &&& is_free_run(pages, start, n)
    &&& forall|s: int| 0 <= s < start ==> !is_free_run(pages, s, n)
}

/// Where a first-fit search for `n` free pages ends, if it finds any.
pub open spec fn first_fit_start(pages: Seq<Page>, n: int) -> int {
    choose|start: int| is_first_fit(pages, start, n)
}

/// A first-fit search has one answer.
pub proof fn lemma_first_fit_is_unique(pages: Seq<Page>, start: int, n: int)
    requires
        is_first_fit(pages, start, n),
    ensures
        first_fit_start(pages, n) == start,
{
    let chosen = first_fit_start(pages, n);
    assert(is_first_fit(pages, chosen, n));
    if chosen < start {
        assert(!is_free_run(pages, chosen, n));
    }
    if start < chosen {
        assert(!is_free_run(pages, start, n));
    }
}

/// Where a run of `n` free pages begins at `start`, a first-fit search for
/// `n` pages finds one.
pub proof fn lemma_first_fit_exists(pages: Seq<Page>, start: int, n: int)
    requires
        is_free_run(pages, start, n),
    ensures
        is_first_fit(pages, first_fit_start(pages, n), n),
    decreases start,
{
    if exists|earlier: int| 0 <= earlier < start && is_free_run(pages, earlier, n) {
        let earlier = choose|earlier: int| 0 <= earlier < start && is_free_run(pages, earlier, n);
        lemma_first_fit_exists(pages, earlier, n);
    } else {
        assert(is_first_fit(pages, start, n));
    }
}

/// No run of `n` contiguous free pages exists anywhere in the arena.
pub open spec fn no_free_run(pages: Seq<Page>, n: int) -> bool {
    forall|s: int| !is_free_run(pages, s, n)
}

/// The pages with the region of `size` pages at `start` overwritten by
/// `value`.
pub open spec fn with_region(pages: Seq<Page>, value: Page, start: int, size: int) -> Seq<Page> {
    Seq::new(
        pages.len(),
        |j: int|
            if start <= j < start + size {
                value
            } else {
                pages[j]
            },
    )
}

/// The pages after a chunk of `n` pages was allocated at `start`.
pub open spec fn with_chunk(pages: Seq<Page>, start: int, n: int) -> Seq<Page> {
    with_region(pages, Page::Allocated { first_in_chunk: start as usize }, start, n)
}

/// The pages after the chunk that begins at `first` was freed: every page
/// that names `first` is free again, the others are untouched.
pub open spec fn without_chunk(pages: Seq<Page>, first: int) -> Seq<Page> {
    Seq::new(
        pages.len(),
        |j: int|
            if pages[j] == (Page::Allocated { first_in_chunk: first as usize }) {
                Page::Free
            } else {
                pages[j]
            },
    )
}

/// The pages after `free_chunk(index)`: the chunk that holds the page at
/// `index` is gone. An index outside the arena, or one of a free page,
/// changes nothing.
pub open spec fn after_free(pages: Seq<Page>, index: int) -> Seq<Page> {
    if 0 <= index < pages.len() {
        match pages[index] {
            Page::Free => pages,
            Page::Allocated { first_in_chunk } => without_chunk(pages, first_in_chunk as int),
        }
    } else {
        pages
    }
}

/// A prefix holds no more chunk heads than pages.
pub proof fn lemma_chunk_count_bounded(pages: Seq<Page>, n: int)
    requires
        0 <= n,
    ensures
        chunk_count(pages, n) <= n,
    decreases n,
{
    if n > 0 {
        lemma_chunk_count_bounded(pages, n - 1);
    }
}

/// A prefix counts zero chunks exactly when no chunk begins inside it.
pub proof fn lemma_chunk_count_zero(pages: Seq<Page>, n: int)
    requires
        0 <= n <= pages.len(),
    ensures
        chunk_count(pages, n) == 0 <==> forall|k: int| 0 <= k < n ==> !is_chunk_head(pages, k),
    decreases n,
{
    if n > 0 {
        lemma_chunk_count_zero(pages, n - 1);
        if chunk_count(pages, n) == 0 {
            assert forall|k: int| 0 <= k < n implies !is_chunk_head(pages, k) by {
                if k < n - 1 {
                } else {
                    assert(!is_chunk_head(pages, n - 1));
                }
            }
        } else {
            if chunk_count(pages, n - 1) == 0 {
                assert(is_chunk_head(pages, n - 1));
            }
        }
    }
}

/// In a well-formed arena the chunk count is zero exactly when every page is
/// free.
pub proof fn lemma_no_chunks_iff_all_free(pages: Seq<Page>)
    requires
        pages_wf(pages),
    ensures
        chunk_count(pages, pages.len() as int) == 0 <==> forall|i: int|
            0 <= i < pages.len() ==> pages[i] == Page::Free,
{
    lemma_chunk_count_zero(pages, pages.len() as int);
    if chunk_count(pages, pages.len() as int) == 0 {
        assert forall|i: int| 0 <= i < pages.len() implies pages[i] == Page::Free by {
            match pages[i] {
                Page::Free => {},
                Page::Allocated { first_in_chunk } => {
                    assert(marked_run(pages, first_in_chunk as int, i));
                    assert(pages[first_in_chunk as int] == pages[i]);
                    assert(is_chunk_head(pages, first_in_chunk as int));
                },
            }
        }
    }
    if forall|i: int| 0 <= i < pages.len() ==> pages[i] == Page::Free {
        assert forall|k: int| 0 <= k < pages.len() implies !is_chunk_head(pages, k) by {
            assert(pages[k] == Page::Free);
        }
    }
}

/// Allocating a chunk on free pages adds exactly one chunk head, the one at
/// `start`, to every prefix that reaches past it.
pub proof fn lemma_count_with_chunk(pages: Seq<Page>, start: int, n: int, m: int)
    requires
        is_free_run(pages, start, n),
        n >= 1,
        pages.len() <= usize::MAX,
        0 <= m <= pages.len(),
    ensures
        chunk_count(with_chunk(pages, start, n), m) == chunk_count(pages, m) + if m > start {
            1nat
        } else {
            0nat
        },
    decreases m,
{
    if m > 0 {
        lemma_count_with_chunk(pages, start, n, m - 1);
        let after = with_chunk(pages, start, n);
        let k = m - 1;
        if start <= k < start + n {
            assert(pages[k] == Page::Free);
            assert(after[k] == (Page::Allocated { first_in_chunk: start as usize }));
            assert(is_chunk_head(after, k) <==> k == start);
            assert(!is_chunk_head(pages, k));
        } else {
            assert(after[k] == pages[k]);
        }
    }
}

/// Freeing the chunk that begins at `first` removes exactly one chunk head,
/// the one at `first`, from every prefix that reaches past it.
pub proof fn lemma_count_without_chunk(pages: Seq<Page>, first: int, m: int)
    requires
        is_chunk_head(pages, first),
        pages.len() <= usize::MAX,
        0 <= m <= pages.len(),
    ensures
        chunk_count(without_chunk(pages, first), m) + (if m > first {
            1nat
        } else {
            0nat
        }) == chunk_count(pages, m),
    decreases m,
{
    if m > 0 {
        lemma_count_without_chunk(pages, first, m - 1);
        let after = without_chunk(pages, first);
        let k = m - 1;
        if k == first {
            assert(after[k] == Page::Free);
        } else {
            if is_chunk_head(pages, k) {
                assert(pages[k] != (Page::Allocated { first_in_chunk: first as usize }));
                assert(after[k] == pages[k]);
            } else {
                assert(after[k] == pages[k] || after[k] == Page::Free);
            }
        }
    }
}

/// Allocating a chunk on free pages keeps the chunk structure intact.
pub proof fn lemma_with_chunk_wf(pages: Seq<Page>, start: int, n: int)
    requires
        pages_wf(pages),
        is_free_run(pages, start, n),
        pages.len() <= usize::MAX,
    ensures
        pages_wf(with_chunk(pages, start, n)),
{
    let after = with_chunk(pages, start, n);
    assert forall|i: int| 0 <= i < after.len() implies match #[trigger] after[i] {
        Page::Free => true,
        Page::Allocated { first_in_chunk } => first_in_chunk <= i && marked_run(
            after,
            first_in_chunk as int,
            i,
        ),
    } by {
        if start <= i < start + n {
            assert forall|j: int| start <= j <= i implies #[trigger] after[j] == (Page::Allocated {
                first_in_chunk: start as usize,
            }) by {}
        } else {
            assert(after[i] == pages[i]);
            match pages[i] {
                Page::Free => {},
                Page::Allocated { first_in_chunk } => {
                    assert(marked_run(pages, first_in_chunk as int, i));
                    assert forall|j: int| first_in_chunk <= j <= i implies #[trigger] after[j]
                        == (Page::Allocated { first_in_chunk }) by {
                        assert(pages[j] == (Page::Allocated { first_in_chunk }));
                    }
                },
            }
        }
    }
}

/// Freeing a chunk keeps the chunk structure intact.
pub proof fn lemma_without_chunk_wf(pages: Seq<Page>, first: int)
    requires
        pages_wf(pages),
    ensures
        pages_wf(without_chunk(pages, first)),
{
    let after = without_chunk(pages, first);
    assert forall|i: int| 0 <= i < after.len() implies match #[trigger] after[i] {
        Page::Free => true,
        Page::Allocated { first_in_chunk } => first_in_chunk <= i && marked_run(
            after,
            first_in_chunk as int,
            i,
        ),
    } by {
        match after[i] {
            Page::Free => {},
            Page::Allocated { first_in_chunk } => {
                assert(after[i] == pages[i]);
                assert(marked_run(pages, first_in_chunk as int, i));
                assert forall|j: int| first_in_chunk <= j <= i implies #[trigger] after[j]
                    == (Page::Allocated { first_in_chunk }) by {
                    assert(pages[j] == (Page::Allocated { first_in_chunk }));
                }
            },
        }
    }
}

/// Allocating a chunk and then freeing it, from any page inside it, gives
/// back the arena as it was before: page for page.
pub proof fn lemma_allocate_then_free_restores(pages: Seq<Page>, start: int, n: int, index: int)
    requires
        pages_wf(pages),
        is_free_run(pages, start, n),
        pages.len() <= usize::MAX,
        start <= index < start + n,
    ensures
        after_free(with_chunk(pages, start, n), index) == pages,
        chunk_count(with_chunk(pages, start, n), pages.len() as int) == chunk_count(
            pages,
            pages.len() as int,
        ) + 1,
{
    let mid = with_chunk(pages, start, n);
    let back = after_free(mid, index);
    lemma_count_with_chunk(pages, start, n, pages.len() as int);
    assert(mid[index] == (Page::Allocated { first_in_chunk: start as usize }));
    assert(back == without_chunk(mid, start));
    assert forall|j: int| 0 <= j < pages.len() implies back[j] == pages[j] by {
        if start <= j < start + n {
            assert(pages[j] == Page::Free);
        } else {
            assert(mid[j] == pages[j]);
            if pages[j] == (Page::Allocated { first_in_chunk: start as usize }) {
                assert(marked_run(pages, start, j));
                assert(pages[start] == (Page::Allocated { first_in_chunk: start as usize }));
                assert(pages[start] == Page::Free);
            }
        }
    }
    assert(back =~= pages);
}

/// Find the first contiguous free region that is large enough to hold
/// `page_count` pages. A request for zero pages is never satisfied.
pub fn linear_probe(arena: &[Page], page_count: usize) -> (found: Option<usize>)
    ensures
        match found {
            Some(start) => page_count >= 1 && is_first_fit(arena@, start as int, page_count as int),
            None => page_count == 0 || no_free_run(arena@, page_count as int),
        },
{
    if page_count == 0 {
        return None;
    }
    let mut start: usize = 0;
    let mut index: usize = 0;
    while index < arena.len()
        invariant
            page_count >= 1,
            start <= index <= arena.len(),
            index - start < page_count,
            forall|j: int| start <= j < index ==> #[trigger] arena@[j] == Page::Free,
            forall|s: int| 0 <= s < start ==> !is_free_run(arena@, s, page_count as int),
        decreases arena.len() - index,
    {
        match arena[index] {
            Page::Free => {
                if index - start == page_count - 1 {
                    return Some(start);
                }
                index = index + 1;
            },
            Page::Allocated { first_in_chunk: _ } => {
                proof {
                    assert forall|s: int| 0 <= s < index + 1 implies !is_free_run(
                        arena@,
                        s,
                        page_count as int,
                    ) by {
                        if s >= start && is_free_run(arena@, s, page_count as int) {
                            assert(arena@[index as int] == Page::Free);
                        }
                    }
                }
                index = index + 1;
                start = index;
            },
        }
    }
    proof {
        assert forall|s: int| !is_free_run(arena@, s, page_count as int) by {
            if is_free_run(arena@, s, page_count as int) {
                assert(s >= start);
            }
        }
    }
    None
}

/// Overwrite a contiguous region of pages with one value.
pub fn set_region(arena: &mut [Page], value: Page, start: usize, size: usize)
    requires
        start + size <= old(arena)@.len(),
    ensures
        final(arena)@ == with_region(old(arena)@, value, start as int, size as int),
{
    let len = arena.len();
    let end = start + size;
    let mut index = start;
    while index < end
        invariant
            start <= index <= end,
            end == start + size,
            end <= len,
            len == arena@.len(),
            arena@ == with_region(old(arena)@, value, start as int, index - start),
        decreases end - index,
    {
        arena[index] = value;
        index = index + 1;
        assert(arena@ =~= with_region(old(arena)@, value, start as int, index - start));
    }
    assert(arena@ =~= with_region(old(arena)@, value, start as int, size as int));
}

/// A contiguous collection of pages from which chunks are allocated and to
/// which they are returned.
pub struct PageArena {
    pages: Vec<Page>,
    allocation_count: usize,
}

impl View for PageArena {
    type V = Seq<Page>;

    closed spec fn view(&self) -> Seq<Page> {
        self.pages@
    }
}

impl PageArena {
    /// The number of chunks that the arena counts as allocated.
    pub closed spec fn count(&self) -> nat {
        self.allocation_count as nat
    }

    /// The arena's invariant: the pages form whole chunks, and the counter
    /// is the number of chunks among them.
    pub open spec fn wf(&self) -> bool {
        &&& pages_wf(self@)
        &&& self.count() == chunk_count(self@, self@.len() as int)
    }

    /// Create an arena of `page_count` pages, all of them free.
    pub fn new(page_count: usize) -> (arena: Self)
        ensures
            arena.wf(),
            arena@.len() == page_count,
            forall|i: int| 0 <= i < page_count ==> arena@[i] == Page::Free,
            arena.count() == 0,
    {
        let mut pages: Vec<Page> = Vec::new();
        let mut index: usize = 0;
        while index < page_count
            invariant
                index <= page_count,
                pages@.len() == index,
                forall|i: int| 0 <= i < index ==> pages@[i] == Page::Free,
            decreases page_count - index,
        {
            pages.push(Page::Free);
            index = index + 1;
        }
        proof {
            lemma_chunk_count_zero(pages@, pages@.len() as int);
        }
        Self { pages, allocation_count: 0 }
    }

    /// Create an arena that holds the given pages, if they form whole
    /// chunks: every allocated page must name the first page of the
    /// contiguous run of pages that it lies in.
    pub fn from_pages(pages: Vec<Page>) -> (arena: Option<Self>)
        ensures
            match arena {
                Some(arena) => arena.wf() && arena@ == pages@,
                None => !pages_wf(pages@),
            },
    {
        let mut allocation_count: usize = 0;
        let mut index: usize = 0;
        while index < pages.len()
            invariant
                index <= pages@.len(),
                allocation_count == chunk_count(pages@, index as int),
                allocation_count <= index,
                forall|earlier: int| 0 <= earlier < index ==> follows_its_chunk(pages@, earlier),
            decreases pages@.len() - index,
        {
            match pages[index] {
                Page::Free => {},
                Page::Allocated { first_in_chunk } => {
                    if first_in_chunk > index {
                        proof {
                            lemma_chunks_are_linked_pages(pages@);
                            assert(!follows_its_chunk(pages@, index as int));
                        }
                        return None;
                    }
                    if first_in_chunk == index {
                        allocation_count = allocation_count + 1;
                    } else {
                        match pages[index - 1] {
                            Page::Free => {
                                proof {
                                    lemma_chunks_are_linked_pages(pages@);
                                    assert(!follows_its_chunk(pages@, index as int));
                                }
                                return None;
                            },
                            Page::Allocated { first_in_chunk: before } => {
                                if before != first_in_chunk {
                                    proof {
                                        lemma_chunks_are_linked_pages(pages@);
                                        assert(!follows_its_chunk(pages@, index as int));
                                    }
                                    return None;
                                }
                            },
                        }
                    }
                },
            }
            index = index + 1;
        }
        proof {
            lemma_chunks_are_linked_pages(pages@);
        }
        Some(Self { pages, allocation_count })
    }

    /// The pages of the arena, in order.
    pub fn pages(&self) -> (pages: &Vec<Page>)
        ensures
            pages@ == self@,
    {
        &self.pages
    }

    /// The number of chunks that are allocated right now.
    pub fn allocation_count(&self) -> (count: usize)
        ensures
            count == self.count(),
    {
        self.allocation_count
    }

    /// Returns true when there are no allocated chunks. In a well-formed
    /// arena that is the case exactly when every page is free.
    pub fn is_empty(&self) -> (empty: bool)
        ensures
            empty <==> self.count() == 0,
            self.wf() ==> (empty <==> forall|i: int| 0 <= i < self@.len() ==> self@[i] == Page::Free),
    {
        proof {
            if self.wf() {
                lemma_no_chunks_iff_all_free(self@);
            }
        }
        self.allocation_count == 0
    }

    /// Find the index of the first contiguous free chunk that is large
    /// enough to fit `page_count` pages.
    pub fn find_first_free_chunk(&self, page_count: usize) -> (found: Option<usize>)
        ensures
            match found {
                Some(start) => page_count >= 1 && is_first_fit(
                    self@,
                    start as int,
                    page_count as int,
                ),
                None => page_count == 0 || no_free_run(self@, page_count as int),
            },
    {
        linear_probe(self.pages.as_slice(), page_count)
    }

    /// Allocate a chunk of `page_count` contiguous pages by first fit.
    ///
    /// Returns the index of the chunk's first page, or `None`, with the
    /// arena untouched, when no run of that many free pages exists or when
    /// zero pages were asked for.
    pub fn allocate_chunk(&mut self, page_count: usize) -> (chunk: Option<usize>)
        requires
            old(self).wf(),
        ensures
            final(self).wf(),
            match chunk {
                Some(start) => {
                    &&& page_count >= 1
                    &&& is_first_fit(old(self)@, start as int, page_count as int)
                    &&& final(self)@ == with_chunk(old(self)@, start as int, page_count as int)
                    &&& final(self).count() == old(self).count() + 1
                },
                None => {
                    &&& page_count == 0 || no_free_run(old(self)@, page_count as int)
                    &&& final(self)@ == old(self)@
                    &&& final(self).count() == old(self).count()
                },
            },
    {
        let first_in_chunk = match self.find_first_free_chunk(page_count) {
            Some(start) => start,
            None => {
                return None;
            },
        };
        let page_total = self.pages.len();
        proof {
            let len = self@.len() as int;
            assert(len == page_total);
            lemma_with_chunk_wf(self@, first_in_chunk as int, page_count as int);
            lemma_count_with_chunk(self@, first_in_chunk as int, page_count as int, len);
            lemma_chunk_count_bounded(
                with_chunk(self@, first_in_chunk as int, page_count as int),
                len,
            );
        }
        set_region(
            self.pages.as_mut_slice(),
            Page::Allocated { first_in_chunk },
            first_in_chunk,
            page_count,
        );
        self.allocation_count = self.allocation_count + 1;
        Some(first_in_chunk)
    }

    /// Free a chunk of contiguous pages.
    ///
    /// `index` names any page of the chunk: it does not have to be the
    /// first. An index outside the arena, or one of a page that is free,
    /// changes nothing.
    pub fn free_chunk(&mut self, index: usize)
        requires
            old(self).wf(),
        ensures
            final(self).wf(),
            final(self)@ == after_free(old(self)@, index as int),
            final(self).count() == if index < old(self)@.len() && old(self)@[index as int]
                != Page::Free {
                (old(self).count() - 1) as nat
            } else {
                old(self).count()
            },
    {
        if index >= self.pages.len() {
            return ;
        }
        let first_in_chunk = match self.pages[index] {
            Page::Free => {
                return ;
            },
            Page::Allocated { first_in_chunk } => first_in_chunk,
        };
        let ghost before = self.pages@;
        let marked = Page::Allocated { first_in_chunk };
        proof {
            assert(marked_run(before, first_in_chunk as int, index as int));
            assert(before[first_in_chunk as int] == marked);
            assert(is_chunk_head(before, first_in_chunk as int));
            lemma_without_chunk_wf(before, first_in_chunk as int);
            lemma_count_without_chunk(before, first_in_chunk as int, before.len() as int);
        }
        let mut cursor = first_in_chunk;
        while cursor < self.pages.len() && self.pages[cursor] == marked
            invariant
                first_in_chunk <= cursor <= before.len(),
                self.pages@.len() == before.len(),
                pages_wf(before),
                marked == (Page::Allocated { first_in_chunk }),
                forall|j: int| first_in_chunk <= j < cursor ==> #[trigger] before[j] == marked,
                forall|j: int|
                    0 <= j < before.len() ==> #[trigger] self.pages@[j] == if first_in_chunk <= j
                        < cursor {
                        Page::Free
                    } else {
                        before[j]
                    },
                self.allocation_count == old(self).allocation_count,
            decreases before.len() - cursor,
        {
            self.pages.set(cursor, Page::Free);
            cursor = cursor + 1;
        }
        proof {
            let after = without_chunk(before, first_in_chunk as int);
            assert forall|j: int| 0 <= j < before.len() implies self.pages@[j] == after[j] by {
                if first_in_chunk <= j < cursor {
                } else if before[j] == marked {
                    // A page of this chunk beyond the cursor would make the
                    // page under the cursor one of the chunk too.
                    assert(marked_run(before, first_in_chunk as int, j));
                    assert(j >= cursor);
                    assert(before[cursor as int] == marked);
                }
            }
            assert(self.pages@ =~= after);
        }
        self.allocation_count = self.allocation_count - 1;
    }
}

} // verus!
