//! Build, fill, register, take, drain: the verified pipeline end to end.

use uring_cat::{build_request, compute_layout, drain_descriptor, DrainError, Registry};

fn pattern(len: usize) -> Vec<u8> {
    (0..len).map(|i| (i % 251) as u8).collect()
}

#[test]
fn ten_byte_file_round_trips() {
    let data: Vec<u8> = b"0123456789".to_vec();
    let (_, block_count) = compute_layout(data.len());
    assert_eq!(block_count, 1);
    let mut d = build_request(data.len());
    assert_eq!(d.buffers.len(), 1);
    d.fill_buffers(&data);
    let out = drain_descriptor(d).unwrap();
    assert_eq!(out, data);
    assert_eq!(out.len(), 10);
}

#[test]
fn empty_file_emits_nothing() {
    let d = build_request(0);
    assert_eq!(d.buffers.len(), 0);
    let out = drain_descriptor(d).unwrap();
    assert!(out.is_empty());
}

#[test]
fn boundary_file_has_no_short_final_block() {
    let data = pattern(8192);
    let mut d = build_request(data.len());
    d.fill_buffers(&data);
    assert_eq!(d.buffers.len(), 2);
    assert_eq!(d.buffers[0].len(), 4096);
    assert_eq!(d.buffers[1].len(), 4096);
    let out = drain_descriptor(d).unwrap();
    assert_eq!(out, data);
}

#[test]
fn one_extra_byte_makes_final_block_of_one() {
    let data = pattern(8193);
    let mut d = build_request(data.len());
    d.fill_buffers(&data);
    assert_eq!(d.buffers.len(), 3);
    assert_eq!(d.buffers[2].len(), 1);
    let out = drain_descriptor(d).unwrap();
    assert_eq!(out, data);
}

#[test]
fn two_files_stay_contiguous() {
    let first = pattern(5000);
    let second: Vec<u8> = b"end".to_vec();

    let mut registry = Registry::new();
    let mut d1 = build_request(first.len());
    d1.fill_buffers(&first);
    let t1 = registry.register(d1);
    let mut d2 = build_request(second.len());
    d2.fill_buffers(&second);
    let t2 = registry.register(d2);

    // Completions may drain in either order; drain the second file first.
    let mut combined = Vec::new();
    let out2 = drain_descriptor(registry.take(t2).unwrap()).unwrap();
    assert_eq!(out2, second);
    combined.extend_from_slice(&out2);
    let out1 = drain_descriptor(registry.take(t1).unwrap()).unwrap();
    assert_eq!(out1, first);
    combined.extend_from_slice(&out1);

    assert_eq!(combined.len(), 5003);
    // Each file's own bytes appear contiguous in the combined stream.
    assert_eq!(&combined[..3], &second[..]);
    assert_eq!(&combined[3..], &first[..]);
}

#[test]
fn oversized_file_reconstructs_exactly() {
    // Needs more than the segment ceiling's worth of default-size blocks.
    let data = pattern((1 << 22) + 5);
    let (block_size, block_count) = compute_layout(data.len());
    assert_eq!(block_size, 8192);
    assert_eq!(block_count, 513);
    let mut d = build_request(data.len());
    d.fill_buffers(&data);
    let out = drain_descriptor(d).unwrap();
    assert_eq!(out, data);
}

#[test]
fn rerun_is_byte_identical() {
    let data = pattern(10000);
    let mut first_run = build_request(data.len());
    first_run.fill_buffers(&data);
    let out1 = drain_descriptor(first_run).unwrap();
    let mut second_run = build_request(data.len());
    second_run.fill_buffers(&data);
    let out2 = drain_descriptor(second_run).unwrap();
    assert_eq!(out1, out2);
}

#[test]
fn built_buffers_start_zeroed() {
    let d = build_request(5000);
    assert!(d.buffers.iter().all(|b| b.iter().all(|&x| x == 0)));
}

#[test]
fn missing_slot_is_a_block_count_mismatch() {
    let mut d = build_request(5000);
    d.buffers.pop();
    assert_eq!(drain_descriptor(d), Err(DrainError::BlockCountMismatch));
}

#[test]
fn short_slot_is_a_slot_length_mismatch() {
    let mut d = build_request(5000);
    d.buffers[0].pop();
    assert_eq!(drain_descriptor(d), Err(DrainError::SlotLengthMismatch));
}

#[test]
fn unknown_token_is_refused() {
    let mut registry = Registry::new();
    assert!(matches!(registry.take(0), Err(DrainError::UnknownToken)));

    let d = build_request(10);
    let token = registry.register(d);
    assert!(registry.take(token).is_ok());
    // A token resolves once; the second take must fail.
    assert!(matches!(registry.take(token), Err(DrainError::UnknownToken)));
    assert_eq!(registry.token_count(), 1);
}
