//! Layout rule: block sizes, block counts, and the segment ceiling.

use uring_cat::{compute_layout, DEFAULT_BLOCK_SIZE, MAX_SEGMENTS};

fn is_power_of_two(n: usize) -> bool {
    n >= 1 && n & (n - 1) == 0
}

#[test]
fn empty_file_has_no_blocks() {
    let (block_size, block_count) = compute_layout(0);
    assert_eq!(block_size, DEFAULT_BLOCK_SIZE);
    assert_eq!(block_count, 0);
}

#[test]
fn ten_bytes_fit_one_block() {
    let (block_size, block_count) = compute_layout(10);
    assert_eq!(block_size, DEFAULT_BLOCK_SIZE);
    assert_eq!(block_count, 1);
}

#[test]
fn exact_boundary_needs_no_extra_block() {
    let (block_size, block_count) = compute_layout(DEFAULT_BLOCK_SIZE);
    assert_eq!(block_size, DEFAULT_BLOCK_SIZE);
    assert_eq!(block_count, 1);

    let (block_size, block_count) = compute_layout(8 * DEFAULT_BLOCK_SIZE);
    assert_eq!(block_size, DEFAULT_BLOCK_SIZE);
    assert_eq!(block_count, 8);
}

#[test]
fn one_byte_past_boundary_adds_a_block() {
    let (block_size, block_count) = compute_layout(DEFAULT_BLOCK_SIZE + 1);
    assert_eq!(block_size, DEFAULT_BLOCK_SIZE);
    assert_eq!(block_count, 2);
}

#[test]
fn five_thousand_bytes_need_two_blocks() {
    let (block_size, block_count) = compute_layout(5000);
    assert_eq!(block_size, DEFAULT_BLOCK_SIZE);
    assert_eq!(block_count, 2);
}

#[test]
fn large_file_grows_block_size_within_ceiling() {
    // Under the default block size this file would need 1025 blocks, one
    // over the ceiling, so the rule must double the block size.
    let size = MAX_SEGMENTS * DEFAULT_BLOCK_SIZE + 5;
    let (block_size, block_count) = compute_layout(size);
    assert!(block_size > DEFAULT_BLOCK_SIZE);
    assert!(is_power_of_two(block_size));
    assert!(block_count <= MAX_SEGMENTS);
    assert_eq!(block_size, 2 * DEFAULT_BLOCK_SIZE);
    assert_eq!(block_count, 513);
}

#[test]
fn layout_covers_the_file_exactly() {
    for size in [0usize, 1, 10, 4095, 4096, 4097, 5000, 8192, 1 << 22, (1 << 22) + 5] {
        let (block_size, block_count) = compute_layout(size);
        assert!(is_power_of_two(block_size));
        assert!(block_count <= MAX_SEGMENTS);
        // block_count is the quotient rounded up.
        assert_eq!(block_count, size.div_ceil(block_size));
        // Full blocks cover the file with less than one block to spare.
        assert!(block_count * block_size >= size);
        if block_count > 0 {
            assert!((block_count - 1) * block_size < size);
        }
    }
}

#[test]
fn same_size_same_layout() {
    // The builder and the drainer both call the rule; equal inputs must
    // yield equal layouts.
    for size in [0usize, 3, 5000, 1 << 22, (1 << 22) + 5] {
        assert_eq!(compute_layout(size), compute_layout(size));
    }
}
