//! Tests for the arithmetic that the page suballocator is built on.

use ccthw_ash_allocator::div_ceil;

#[test]
fn page_suballocator_div_ceil_test() {
    assert_eq!(div_ceil(1, 2), 1);
    assert_eq!(div_ceil(1, 3), 1);
    assert_eq!(div_ceil(1, 4), 1);
    assert_eq!(div_ceil(3, 2), 2);
    assert_eq!(div_ceil(7, 3), 3);
}

#[test]
fn mod_div_ceil_test() {
    assert_eq!(div_ceil(1, 2), 1);
    assert_eq!(div_ceil(1, 3), 1);
    assert_eq!(div_ceil(1, 4), 1);
    assert_eq!(div_ceil(3, 2), 2);
    assert_eq!(div_ceil(7, 3), 3);
}

#[test]
fn div_ceil_of_exact_multiples_and_of_the_largest_values() {
    assert_eq!(div_ceil(0, 5), 0);
    assert_eq!(div_ceil(10, 5), 2);
    assert_eq!(div_ceil(u64::MAX, 1), u64::MAX);
    assert_eq!(div_ceil(u64::MAX, 2), 1 << 63);
    assert_eq!(div_ceil(u64::MAX, u64::MAX), 1);
}
