//! Tests for the page arena and the functions it is built from.

use ccthw_ash_allocator::{linear_probe, set_region, Page, PageArena};

const F: Page = Page::Free;
const A: Page = Page::Allocated { first_in_chunk: 0 };

fn page_to_str(page: &Page) -> String {
    match *page {
        Page::Free => "f".into(),
        Page::Allocated { first_in_chunk } => format!("{first_in_chunk}"),
    }
}

fn pages_to_str(pages: &[Page]) -> String {
    pages.iter().map(page_to_str).collect::<String>()
}

fn page_from_str(page: &str) -> Page {
    if page == "f" {
        return Page::Free;
    }
    let first_in_chunk = str::parse(page).unwrap();
    Page::Allocated { first_in_chunk }
}

fn pages_from_str(pages: &str) -> Vec<Page> {
    pages.split('|').map(page_from_str).collect::<Vec<Page>>()
}

fn arena_with_pages(pages: &str, allocation_count: usize) -> PageArena {
    let arena = PageArena::from_pages(pages_from_str(pages)).unwrap();
    assert_eq!(arena.allocation_count(), allocation_count);
    arena
}

#[test]
fn test_linear_probe() {
    assert_eq!(linear_probe(&[F, F, F, F, F], 2), Some(0));
    assert_eq!(linear_probe(&[A, F, F, F, F], 2), Some(1));
    assert_eq!(linear_probe(&[A, A, F, F, F], 2), Some(2));
    assert_eq!(linear_probe(&[A, A, A, F, F], 2), Some(3));
    assert_eq!(linear_probe(&[A, A, A, A, F], 2), None);
    assert_eq!(linear_probe(&[A, F, F, A, F, F], 2), Some(1));
    assert_eq!(linear_probe(&[A, A, F, F, A, F, F, F, A], 3), Some(5));
    assert_eq!(linear_probe(&[A, A, A, F, A, F, F, F, A], 1), Some(3));
    assert_eq!(linear_probe(&[A, A, A, A, A, F, F, A], 1,), Some(5));
}

#[test]
fn test_linear_probe_for_no_pages_finds_nothing() {
    assert_eq!(linear_probe(&[F, F, F], 0), None);
    assert_eq!(linear_probe(&[], 0), None);
    assert_eq!(linear_probe(&[], 1), None);
}

#[test]
fn test_set_region() {
    let mut arena = [F, F, F, F, F];

    set_region(&mut arena, A, 2, 2);
    assert_eq!(arena, [F, F, A, A, F]);

    set_region(&mut arena, A, 4, 1);
    assert_eq!(arena, [F, F, A, A, A]);

    set_region(&mut arena, F, 4, 0);
    assert_eq!(arena, [F, F, A, A, A]);

    set_region(&mut arena, F, 2, 1);
    assert_eq!(arena, [F, F, F, A, A]);
}

#[test]
fn test_page_arena_constructor() {
    let arena = PageArena::new(5);
    assert_eq!(pages_to_str(arena.pages()), "fffff");
    assert_eq!(arena.allocation_count(), 0);
    assert!(arena.is_empty());
}

#[test]
fn test_find_first_free_chunk() {
    let arena = PageArena::new(5);
    assert_eq!(arena.find_first_free_chunk(1), Some(0));
    assert_eq!(arena.find_first_free_chunk(5), Some(0));
    assert_eq!(arena.find_first_free_chunk(6), None);

    let arena = arena_with_pages("f|1|1|f|f|f|6|6|6|6|f|f", 2);
    assert_eq!(arena.find_first_free_chunk(1), Some(0));
    assert_eq!(arena.find_first_free_chunk(2), Some(3));
    assert_eq!(arena.find_first_free_chunk(3), Some(3));
    assert_eq!(arena.find_first_free_chunk(4), None);
}

#[test]
fn test_page_arena_free() {
    let mut arena = arena_with_pages("f|f|2|2|2|2", 1);
    arena.free_chunk(4);
    assert_eq!(pages_to_str(arena.pages()), "ffffff");
}

#[test]
fn test_from_pages_takes_whole_chunks_only() {
    assert!(PageArena::from_pages(pages_from_str("f|1|1|f")).is_some());
    assert!(PageArena::from_pages(vec![]).is_some());
    // A page that names a chunk start behind itself.
    assert!(PageArena::from_pages(pages_from_str("1|1|f")).is_none());
    // A chunk without its first page.
    assert!(PageArena::from_pages(pages_from_str("f|f|1|f")).is_none());
    // A chunk with a hole in it.
    assert!(PageArena::from_pages(pages_from_str("0|f|0")).is_none());
    // A page of another chunk inside a chunk.
    assert!(PageArena::from_pages(pages_from_str("0|1|0")).is_none());

    let arena = arena_with_pages("0|1|1|3|f|5", 4);
    assert!(!arena.is_empty());
}

#[test]
fn test_is_empty_means_every_page_is_free() {
    let mut arena = PageArena::new(6);
    assert!(arena.is_empty());
    assert!(arena.pages().iter().all(|page| *page == Page::Free));

    let start = arena.allocate_chunk(3).unwrap();
    assert!(!arena.is_empty());
    assert_eq!(arena.allocation_count(), 1);
    assert!(arena.pages().iter().any(|page| *page != Page::Free));

    arena.free_chunk(start + 2);
    assert!(arena.is_empty());
    assert_eq!(arena.allocation_count(), 0);
    assert!(arena.pages().iter().all(|page| *page == Page::Free));
}

#[test]
fn test_page_arena_allocation() {
    let mut arena = PageArena::new(10);
    assert_eq!(arena.allocate_chunk(5), Some(0));
    assert_eq!(pages_to_str(arena.pages()), "00000fffff");
    assert_eq!(arena.allocation_count(), 1);

    assert_eq!(arena.allocate_chunk(2), Some(5));
    assert_eq!(pages_to_str(arena.pages()), "0000055fff");

    assert_eq!(arena.allocate_chunk(3), Some(7));
    assert_eq!(pages_to_str(arena.pages()), "0000055777");

    assert_eq!(arena.allocate_chunk(1), None);
    assert_eq!(pages_to_str(arena.pages()), "0000055777");
}

#[test]
fn test_page_arena_allocate_and_free() {
    let mut arena = PageArena::new(10);
    assert_eq!(arena.allocate_chunk(5), Some(0));
    assert_eq!(arena.allocate_chunk(2), Some(5));
    assert_eq!(arena.allocate_chunk(3), Some(7));
    assert_eq!(pages_to_str(arena.pages()), "0000055777");

    arena.free_chunk(3); // somewhere in that first chunk
    assert_eq!(pages_to_str(arena.pages()), "fffff55777");

    arena.free_chunk(7); // right at the beginning of the chunk
    assert_eq!(pages_to_str(arena.pages()), "fffff55fff");

    arena.free_chunk(6); // at the very end of the chunk
    assert_eq!(pages_to_str(arena.pages()), "ffffffffff");
    assert!(arena.is_empty());
}

#[test]
fn test_smoke_test() {
    let mut chunks = vec![];
    let mut arena = PageArena::new(1000);

    let count = 10_000;
    for _ in 0..count {
        if let Some(index) = arena.allocate_chunk(5) {
            chunks.push(index);
        }
    }

    for index in chunks.drain(0..) {
        arena.free_chunk(index);
    }

    assert!(arena.is_empty());
}

#[test]
fn test_allocate_then_free_restores_the_arena() {
    let mut arena = PageArena::new(12);
    assert_eq!(arena.allocate_chunk(1), Some(0));
    assert_eq!(arena.allocate_chunk(2), Some(1));
    assert_eq!(arena.allocate_chunk(3), Some(3));
    arena.free_chunk(0);
    arena.free_chunk(4);
    let before = arena.pages().clone();
    let count_before = arena.allocation_count();
    assert_eq!(pages_to_str(&before), "f11fffffffff");

    for inside in 0..4 {
        let start = arena.allocate_chunk(4).unwrap();
        assert_eq!(start, 3);
        assert_eq!(pages_to_str(arena.pages()), "f113333fffff");
        arena.free_chunk(start + inside);
        assert_eq!(arena.pages(), &before);
        assert_eq!(arena.allocation_count(), count_before);
    }
}

#[test]
fn test_free_chunk_ignores_free_pages_and_indices_outside() {
    let mut arena = PageArena::new(4);
    assert_eq!(arena.allocate_chunk(2), Some(0));
    arena.free_chunk(3);
    arena.free_chunk(4);
    arena.free_chunk(usize::MAX);
    assert_eq!(pages_to_str(arena.pages()), "00ff");
    assert_eq!(arena.allocation_count(), 1);
    assert!(!arena.is_empty());
}
