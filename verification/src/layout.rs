//! The block layout rule shared by the submission and the completion path.
//!
//! A file of `size` bytes is split into blocks of one power-of-two size.
//! The rule starts from [`DEFAULT_BLOCK_SIZE`] and doubles the block size
//! until at most [`MAX_SEGMENTS`] blocks cover the file, so that one
//! scatter-gather read can carry every block.  Both the request builder and
//! the completion drainer derive the layout from the file size alone, through
//! this one function; they can therefore never disagree on how many buffers a
//! request owns.

use vstd::prelude::*;

verus! {

use vstd::arithmetic::div_mod::{
    lemma_basic_div, lemma_div_denominator, lemma_div_minus_one, lemma_fundamental_div_mod,
    lemma_mod_bound, lemma_mod_sub_multiples_vanish, lemma_small_div_converse, lemma_small_mod,
};
use vstd::arithmetic::mul::{lemma_mul_inequality, lemma_mul_is_commutative, lemma_mul_strict_inequality};
use vstd::arithmetic::power::{
    lemma_pow_strictly_increases, lemma_pow_strictly_increases_converse, pow,
};
use vstd::arithmetic::power2::{is_pow2, is_pow2_equiv};

/// Block size the layout rule starts from, in bytes.
pub const DEFAULT_BLOCK_SIZE: usize = 4096;

/// Ceiling on the number of scatter-gather segments one read operation may
/// reference.
pub const MAX_SEGMENTS: usize = 1024;

/// Number of blocks a file of `size` bytes occupies under block size
/// `block_size`: the quotient rounded up.
pub open spec fn blocks_of(size: nat, block_size: nat) -> nat
    recommends
        block_size >= 1,
{
    size / block_size + if size % block_size == 0 {
        0nat
    } else {
        1nat
    }
}

/// Smallest doubling of `block_size` under which fewer than [`MAX_SEGMENTS`]
/// whole blocks cover `size` bytes.
pub open spec fn grow_block_size(size: nat, block_size: nat) -> nat
    decreases size / block_size,
        when block_size >= 1
{
    if size / block_size >= MAX_SEGMENTS as nat {
        proof {
            lemma_div_denominator(size as int, block_size as int, 2);
        }
        grow_block_size(size, 2 * block_size)
    } else {
        block_size
    }
}

/// The block size the layout rule assigns to a file of `size` bytes.
pub open spec fn layout_block_size(size: nat) -> nat {
    grow_block_size(size, DEFAULT_BLOCK_SIZE as nat)
}

/// The number of buffer slots the layout rule assigns to a file of `size`
/// bytes.
pub open spec fn layout_block_count(size: nat) -> nat {
    blocks_of(size, layout_block_size(size))
}

/// Valid byte count of slot `i` when `size` bytes are split into blocks of
/// `block_size` bytes: a full block, except for a shorter final block when
/// the size is not a multiple of the block size.
pub open spec fn slot_len_at(size: nat, block_size: nat, i: nat) -> nat
    recommends
        block_size >= 1,
        i < blocks_of(size, block_size),
{
    if (i + 1) * block_size <= size {
        block_size
    } else {
        (size - i * block_size) as nat
    }
}

/// Valid byte count of slot `i` under the layout the rule assigns to a file
/// of `size` bytes.
pub open spec fn slot_len(size: nat, i: nat) -> nat
    recommends
        i < layout_block_count(size),
{
    slot_len_at(size, layout_block_size(size), i)
}

/// Bytes of a `size`-byte file still uncovered once slots `0 .. i` have been
/// laid out under block size `block_size`.
pub open spec fn remaining_after(size: nat, block_size: nat, i: nat) -> nat {
    if i * block_size <= size {
        (size - i * block_size) as nat
    } else {
        0
    }
}

/// A file occupies no blocks exactly when it is empty.
pub proof fn lemma_blocks_zero(size: nat, block_size: nat)
    requires
        block_size >= 1,
    ensures
        blocks_of(size, block_size) == 0 <==> size == 0,
{
    if size == 0 {
        lemma_basic_div(0, block_size as int);
        lemma_small_mod(0, block_size);
        assert(size / block_size == 0);
        assert(size % block_size == 0);
    }
    if blocks_of(size, block_size) == 0 {
        assert(size / block_size == 0);
        assert(size % block_size == 0);
        lemma_small_div_converse(size as int, block_size as int);
        lemma_fundamental_div_mod(size as int, block_size as int);
        assert(size == 0);
    }
}

/// Every slot of a laid-out file begins strictly inside the file, holds
/// between one byte and a full block, and ends within the file.
pub proof fn lemma_slot_in_range(size: nat, block_size: nat, i: nat)
    requires
        block_size >= 1,
        i < blocks_of(size, block_size),
    ensures
        i * block_size < size,
        1 <= slot_len_at(size, block_size, i) <= block_size,
        i * block_size + slot_len_at(size, block_size, i) <= size,
{
    let q = size / block_size;
    let r = size % block_size;
    lemma_fundamental_div_mod(size as int, block_size as int);
    lemma_mod_bound(size as int, block_size as int);
    assert((i + 1) * block_size == i * block_size + block_size) by (nonlinear_arith);
    if i + 1 <= q {
        lemma_mul_inequality(i as int + 1, q as int, block_size as int);
        assert((i + 1) * block_size <= q * block_size);
        assert(q * block_size <= size);
        lemma_mul_strict_inequality(i as int, i as int + 1, block_size as int);
    } else {
        assert(i >= q);
        assert(i < blocks_of(size, block_size));
        assert(i == q && r != 0);
        assert((q + 1) * block_size == q * block_size + block_size) by (nonlinear_arith);
        assert(q * block_size == size - r);
        assert((i + 1) * block_size > size);
        assert(slot_len_at(size, block_size, i) == r);
    }
}

/// How one laid-out slot advances the running byte count: the slot holds
/// either a full block or all the bytes that remain, and afterwards the
/// remaining count drops by exactly the slot's length.
pub proof fn lemma_slot_step(size: nat, block_size: nat, i: nat)
    requires
        block_size >= 1,
        i < blocks_of(size, block_size),
    ensures
        remaining_after(size, block_size, i) == size - i * block_size,
        slot_len_at(size, block_size, i) == if remaining_after(size, block_size, i)
            < block_size {
            remaining_after(size, block_size, i)
        } else {
            block_size
        },
        remaining_after(size, block_size, i + 1) == remaining_after(size, block_size, i)
            - slot_len_at(size, block_size, i),
        1 <= slot_len_at(size, block_size, i) <= block_size,
{
    lemma_slot_in_range(size, block_size, i);
    assert((i + 1) * block_size == i * block_size + block_size) by (nonlinear_arith);
}

/// A single-block file fits in one slot that holds the whole file.
pub proof fn lemma_blocks_one(size: nat, block_size: nat)
    requires
        block_size >= 1,
        blocks_of(size, block_size) == 1,
    ensures
        slot_len_at(size, block_size, 0) == size,
        1 <= size,
{
    lemma_slot_in_range(size, block_size, 0);
    lemma_slot_step(size, block_size, 0);
    let q = size / block_size;
    let r = size % block_size;
    lemma_fundamental_div_mod(size as int, block_size as int);
    lemma_mod_bound(size as int, block_size as int);
    if r == 0 {
        assert(q == 1);
        assert(size as int == block_size as int * (size as int / block_size as int) + size as int
            % block_size as int);
        assert(size as int / block_size as int == 1);
        assert(block_size as int * 1 == block_size as int) by (nonlinear_arith);
        assert(size == block_size);
    } else {
        assert(q == 0);
        lemma_small_div_converse(size as int, block_size as int);
        assert(size < block_size);
    }
    assert(remaining_after(size, block_size, 0) == size);
}

/// Splitting off the first slot of a file at least two blocks long: that
/// slot is a full block, and the rest of the file lays out as the same
/// blocks shifted down by one.
pub proof fn lemma_blocks_many(size: nat, block_size: nat)
    requires
        block_size >= 1,
        blocks_of(size, block_size) >= 2,
    ensures
        size > block_size,
        slot_len_at(size, block_size, 0) == block_size,
        blocks_of((size - block_size) as nat, block_size) == blocks_of(size, block_size) - 1,
        forall|i: nat|
            #[trigger] slot_len_at((size - block_size) as nat, block_size, i) == slot_len_at(
                size,
                block_size,
                i + 1,
            ),
{
    let q = size / block_size;
    let r = size % block_size;
    lemma_fundamental_div_mod(size as int, block_size as int);
    lemma_mod_bound(size as int, block_size as int);
    assert(q >= 1);
    lemma_mul_inequality(1, q as int, block_size as int);
    assert(q * block_size <= size);
    if q == 1 {
        assert(blocks_of(size, block_size) >= 2);
        assert(r != 0);
        assert(size > block_size);
    } else {
        lemma_mul_inequality(2, q as int, block_size as int);
        assert(2 * block_size <= q * block_size);
        assert(size > block_size);
    }
    lemma_slot_in_range(size, block_size, 0);
    assert((0 + 1) * block_size == block_size) by (nonlinear_arith);
    assert(slot_len_at(size, block_size, 0) == block_size);
    let rest = (size - block_size) as nat;
    lemma_div_minus_one(size as int, block_size as int);
    assert(rest as int / block_size as int == q - 1);
    lemma_mod_sub_multiples_vanish(size as int, block_size as int);
    assert(rest as int % block_size as int == r);
    assert(blocks_of(rest, block_size) == blocks_of(size, block_size) - 1);
    assert forall|i: nat|
        #[trigger] slot_len_at(rest, block_size, i) == slot_len_at(
            size,
            block_size,
            i + 1,
        ) by {
        assert((i + 1) * block_size == i * block_size + block_size) by (nonlinear_arith);
        assert((i + 2) * block_size == (i + 1) * block_size + block_size) by (nonlinear_arith);
        assert((i + 1) * block_size <= rest <==> (i + 2) * block_size <= size);
        assert(rest - i * block_size == size - (i + 1) * block_size);
    }
}

/// Distinct powers of two are at least a factor of two apart.
proof fn lemma_pow2_gap(a: nat, b: nat)
    requires
        is_pow2(a as int),
        is_pow2(b as int),
        a < b,
    ensures
        2 * a <= b,
{
    is_pow2_equiv(a as int);
    is_pow2_equiv(b as int);
    let i = choose|i: nat| pow(2, i) == a as int;
    let j = choose|j: nat| pow(2, j) == b as int;
    lemma_pow_strictly_increases_converse(2, i, j);
    assert(i < j);
    assert(pow(2, (i + 1) as nat) == 2 * pow(2, i)) by {
        reveal_with_fuel(pow, 2);
    }
    if i + 1 < j {
        lemma_pow_strictly_increases(2, (i + 1) as nat, j);
    }
}

/// Below the rule's answer, every power of two still leaves at least
/// [`MAX_SEGMENTS`] whole blocks uncovered.
proof fn lemma_grow_block_size_minimal(size: nat, block_size: nat, candidate: nat)
    requires
        block_size >= 1,
        is_pow2(block_size as int),
        is_pow2(candidate as int),
        block_size <= candidate < grow_block_size(size, block_size),
    ensures
        size / candidate >= MAX_SEGMENTS as nat,
    decreases size / block_size,
{
    if size / block_size >= MAX_SEGMENTS as nat {
        if candidate > block_size {
            lemma_pow2_gap(block_size, candidate);
            assert(is_pow2(2 * block_size as int)) by {
                reveal_with_fuel(is_pow2, 1);
            }
            lemma_div_denominator(size as int, block_size as int, 2);
            lemma_grow_block_size_minimal(size, 2 * block_size, candidate);
        }
    }
}

/// Law: the layout rule picks the least sufficient block size.  Any
/// smaller power of two, down to the default, would still need at least
/// [`MAX_SEGMENTS`] whole blocks, overrunning one scatter-gather read.
pub proof fn lemma_block_size_minimal(size: nat, candidate: nat)
    requires
        is_pow2(candidate as int),
        DEFAULT_BLOCK_SIZE <= candidate < layout_block_size(size),
    ensures
        size / candidate >= MAX_SEGMENTS as nat,
{
    lemma_default_block_size_is_pow2();
    lemma_grow_block_size_minimal(size, DEFAULT_BLOCK_SIZE as nat, candidate);
}

/// Law: the final block of a non-empty file holds its size's remainder
/// modulo the block size — a full block when the size lands exactly on a
/// block boundary, a single byte when the size is one byte past a multiple
/// of the block size.
pub proof fn lemma_final_block_len(size: nat)
    requires
        size >= 1,
    ensures
        ({
            let block_size = layout_block_size(size);
            let last = (layout_block_count(size) - 1) as nat;
            slot_len(size, last) == if size % block_size == 0 {
                block_size
            } else {
                size % block_size
            }
        }),
{
    let block_size = layout_block_size(size);
    lemma_layout_props(size);
    lemma_blocks_zero(size, block_size);
    let count = layout_block_count(size);
    let last = (count - 1) as nat;
    lemma_slot_step(size, block_size, last);
    let q = size / block_size;
    let r = size % block_size;
    lemma_fundamental_div_mod(size as int, block_size as int);
    lemma_mod_bound(size as int, block_size as int);
    if r == 0 {
        assert(last == q - 1);
        assert(last as int * block_size as int == q as int * block_size as int
            - block_size as int) by (nonlinear_arith)
            requires
                last as int == q as int - 1,
        ;
        lemma_mul_is_commutative(q as int, block_size as int);
        assert(last * block_size == size - block_size);
        assert(remaining_after(size, block_size, last) == block_size);
    } else {
        assert(last == q);
        lemma_mul_is_commutative(q as int, block_size as int);
        assert(last * block_size == size - r);
        assert(remaining_after(size, block_size, last) == r);
    }
}

/// The starting block size is a power of two.
proof fn lemma_default_block_size_is_pow2()
    ensures
        is_pow2(DEFAULT_BLOCK_SIZE as int),
{
    reveal_with_fuel(is_pow2, 13);
}

/// Growing the block size keeps it a power of two, never shrinks it, and
/// stops only once fewer than [`MAX_SEGMENTS`] whole blocks cover the file.
proof fn lemma_grow_block_size_props(size: nat, block_size: nat)
    requires
        block_size >= 1,
        is_pow2(block_size as int),
    ensures
        grow_block_size(size, block_size) >= block_size,
        is_pow2(grow_block_size(size, block_size) as int),
        size / grow_block_size(size, block_size) < MAX_SEGMENTS as nat,
    decreases size / block_size,
{
    if size / block_size >= MAX_SEGMENTS as nat {
        assert(is_pow2(2 * block_size as int)) by {
            reveal_with_fuel(is_pow2, 1);
        }
        lemma_div_denominator(size as int, block_size as int, 2);
        lemma_grow_block_size_props(size, 2 * block_size);
    }
}

/// The layout rule yields a power-of-two block size, at least the default,
/// with a block count within the segment ceiling; a file has zero blocks
/// exactly when it is empty.
pub proof fn lemma_layout_props(size: nat)
    ensures
        layout_block_size(size) >= DEFAULT_BLOCK_SIZE,
        is_pow2(layout_block_size(size) as int),
        size / layout_block_size(size) < MAX_SEGMENTS as nat,
        layout_block_count(size) <= MAX_SEGMENTS as nat,
        size == 0 <==> layout_block_count(size) == 0,
{
    lemma_default_block_size_is_pow2();
    lemma_grow_block_size_props(size, DEFAULT_BLOCK_SIZE as nat);
    let b = layout_block_size(size);
    if size == 0 {
        lemma_basic_div(0, b as int);
        lemma_small_mod(0, b);
        assert(size / b == 0);
        assert(size % b == 0);
        assert(layout_block_count(size) == 0);
    }
    if layout_block_count(size) == 0 {
        assert(size / b == 0);
        assert(size % b == 0);
        lemma_small_div_converse(size as int, b as int);
        lemma_fundamental_div_mod(size as int, b as int);
        assert(size == 0);
    }
}

/// Derives the block layout for a file of `file_size` bytes: the power-of-two
/// block size and the number of blocks needed to cover the file, the count
/// never exceeding [`MAX_SEGMENTS`].
///
/// The request builder sizes a descriptor's buffers with this function, and
/// the completion drainer recovers the same layout from the stored file size
/// by calling it again.
pub fn compute_layout(file_size: usize) -> (r: (usize, usize))
    ensures
        r.0 as nat == layout_block_size(file_size as nat),
        r.1 as nat == layout_block_count(file_size as nat),
        r.1 as nat == blocks_of(file_size as nat, r.0 as nat),
        is_pow2(r.0 as int),
        r.0 >= DEFAULT_BLOCK_SIZE,
        r.1 <= MAX_SEGMENTS,
        (file_size == 0 <==> r.1 == 0),
{
    let mut block_size: usize = DEFAULT_BLOCK_SIZE;
    while file_size / block_size >= MAX_SEGMENTS
        invariant
            DEFAULT_BLOCK_SIZE <= block_size,
            grow_block_size(file_size as nat, block_size as nat) == layout_block_size(
                file_size as nat,
            ),
        decreases file_size as nat / block_size as nat,
    {
        proof {
            lemma_fundamental_div_mod(file_size as int, block_size as int);
            lemma_mul_inequality(
                MAX_SEGMENTS as int,
                file_size as int / block_size as int,
                block_size as int,
            );
            lemma_div_denominator(file_size as int, block_size as int, 2);
        }
        block_size = block_size * 2;
    }
    proof {
        lemma_layout_props(file_size as nat);
    }
    let mut block_count: usize = file_size / block_size;
    if file_size % block_size != 0 {
        block_count = block_count + 1;
    }
    (block_size, block_count)
}

} // verus!
