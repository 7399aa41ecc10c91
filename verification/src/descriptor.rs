//! The request descriptor: the record binding a file's total size to its
//! ordered buffer slots.
//!
//! A descriptor is created by the request builder with one buffer slot per
//! block of the layout that [`crate::layout::compute_layout`] assigns to the
//! file size.  The kernel read fills the slots; the completion drainer walks
//! them in order and emits their bytes.  Layout parameters are never stored:
//! both sides re-derive them from `file_size`, so the well-formedness
//! predicate below ties the slots to the file size alone.

use vstd::prelude::*;

verus! {

use crate::layout::{
    blocks_of, compute_layout, layout_block_count, layout_block_size, lemma_blocks_many,
    lemma_blocks_one, lemma_blocks_zero, lemma_layout_props, lemma_slot_in_range, lemma_slot_step,
    remaining_after, slot_len, slot_len_at,
};

/// The unit of work tracked by the ring: a file's byte length together with
/// the ordered buffer slots that will hold its blocks.
pub struct RequestDescriptor {
    /// Total byte length of the source file.
    pub file_size: usize,
    /// One buffer per block, in file order; each holds exactly the valid
    /// bytes of its block.
    pub buffers: Vec<Vec<u8>>,
}

impl RequestDescriptor {
    /// The per-slot byte sequences the descriptor currently holds.
    pub open spec fn slots_view(self) -> Seq<Seq<u8>> {
        Seq::new(self.buffers@.len(), |i: int| self.buffers@[i]@)
    }

    /// The descriptor owns exactly as many slots as the layout rule derives
    /// from its file size.
    pub open spec fn counts_consistent(self) -> bool {
        self.buffers@.len() == layout_block_count(self.file_size as nat)
    }

    /// Every slot holds exactly the valid byte count of its block: a full
    /// block, except for a shorter final block.
    pub open spec fn lengths_consistent(self) -> bool {
        forall|i: int|
            0 <= i < self.buffers@.len() ==> (#[trigger] self.buffers@[i])@.len() == slot_len(
                self.file_size as nat,
                i as nat,
            )
    }

    /// Descriptor invariant: slot count and slot lengths agree with the
    /// layout derived from the stored file size.
    pub open spec fn wf(self) -> bool {
        self.counts_consistent() && self.lengths_consistent()
    }

    /// The bytes the completion drainer emits for this descriptor: the
    /// slots' contents concatenated in order.
    pub open spec fn emitted_bytes(self) -> Seq<u8> {
        self.slots_view().flatten()
    }

    /// The descriptor's slots hold exactly the blocks of `data`: slot `i`
    /// holds the `i`-th block-sized chunk, the final slot the shorter tail.
    pub open spec fn filled_from(self, data: Seq<u8>) -> bool {
        let size = self.file_size as nat;
        let block_size = layout_block_size(size) as int;
        &&& data.len() == size
        &&& self.counts_consistent()
        &&& forall|i: int|
            0 <= i < self.buffers@.len() ==> (#[trigger] self.buffers@[i])@ == data.subrange(
                i * block_size,
                i * block_size + slot_len(size, i as nat) as int,
            )
    }
}

/// Slots whose lengths follow the layout of a `size`-byte file flatten to
/// exactly `size` bytes, whatever they hold.
proof fn lemma_slots_flatten_len_at(size: nat, block_size: nat, bufs: Seq<Seq<u8>>)
    requires
        block_size >= 1,
        bufs.len() == blocks_of(size, block_size),
        forall|i: int|
            0 <= i < bufs.len() ==> (#[trigger] bufs[i]).len() == slot_len_at(
                size,
                block_size,
                i as nat,
            ),
    ensures
        bufs.flatten().len() == size,
    decreases bufs.len(),
{
    if bufs.len() == 0 {
        lemma_blocks_zero(size, block_size);
    } else if bufs.len() == 1 {
        lemma_blocks_one(size, block_size);
        bufs.lemma_flatten_one_element();
        assert(bufs[0].len() == slot_len_at(size, block_size, 0));
    } else {
        lemma_blocks_many(size, block_size);
        let rest_size = (size - block_size) as nat;
        let rest = bufs.drop_first();
        assert forall|i: int|
            0 <= i < rest.len() implies (#[trigger] rest[i]).len() == slot_len_at(
            rest_size,
            block_size,
            i as nat,
        ) by {
            assert(rest[i] == bufs[i + 1]);
            assert(bufs[i + 1].len() == slot_len_at(size, block_size, (i + 1) as nat));
            assert(slot_len_at(rest_size, block_size, i as nat) == slot_len_at(
                size,
                block_size,
                i as nat + 1,
            ));
        }
        lemma_slots_flatten_len_at(rest_size, block_size, rest);
        assert(bufs[0].len() == slot_len_at(size, block_size, 0));
        assert(bufs.flatten().len() == bufs.first().len() + rest.flatten().len());
    }
}

/// Slots holding the blocks of `data` flatten back to exactly `data`:
/// gathering what was scattered loses and duplicates nothing.
proof fn lemma_chunks_flatten_at(size: nat, block_size: nat, data: Seq<u8>, bufs: Seq<Seq<u8>>)
    requires
        block_size >= 1,
        data.len() == size,
        bufs.len() == blocks_of(size, block_size),
        forall|i: int|
            0 <= i < bufs.len() ==> (#[trigger] bufs[i]) == data.subrange(
                i * block_size as int,
                i * block_size as int + slot_len_at(size, block_size, i as nat) as int,
            ),
    ensures
        bufs.flatten() == data,
    decreases bufs.len(),
{
    if bufs.len() == 0 {
        lemma_blocks_zero(size, block_size);
        assert(bufs.flatten() =~= data);
    } else if bufs.len() == 1 {
        lemma_blocks_one(size, block_size);
        bufs.lemma_flatten_one_element();
        assert(bufs[0] == data.subrange(
            0 * block_size as int,
            0 * block_size as int + slot_len_at(size, block_size, 0) as int,
        ));
        assert(data.subrange(0, size as int) =~= data);
    } else {
        lemma_blocks_many(size, block_size);
        let rest_size = (size - block_size) as nat;
        let rest_data = data.skip(block_size as int);
        let rest = bufs.drop_first();
        assert(rest_data.len() == rest_size);
        assert forall|i: int|
            0 <= i < rest.len() implies (#[trigger] rest[i]) == rest_data.subrange(
            i * block_size as int,
            i * block_size as int + slot_len_at(rest_size, block_size, i as nat) as int,
        ) by {
            assert(rest[i] == bufs[i + 1]);
            assert(bufs[i + 1] == data.subrange(
                (i + 1) * block_size as int,
                (i + 1) * block_size as int + slot_len_at(
                    size,
                    block_size,
                    (i + 1) as nat,
                ) as int,
            ));
            assert(slot_len_at(rest_size, block_size, i as nat) == slot_len_at(
                size,
                block_size,
                i as nat + 1,
            ));
            lemma_slot_in_range(rest_size, block_size, i as nat);
            assert((i + 1) * block_size as int == i * block_size as int + block_size as int)
                by (nonlinear_arith);
            assert(rest_data.subrange(
                i * block_size as int,
                i * block_size as int + slot_len_at(rest_size, block_size, i as nat) as int,
            ) =~= data.subrange(
                (i + 1) * block_size as int,
                (i + 1) * block_size as int + slot_len_at(
                    size,
                    block_size,
                    (i + 1) as nat,
                ) as int,
            ));
        }
        lemma_chunks_flatten_at(rest_size, block_size, rest_data, rest);
        lemma_slot_in_range(size, block_size, 0);
        assert(bufs[0] == data.subrange(
            0 * block_size as int,
            0 * block_size as int + slot_len_at(size, block_size, 0) as int,
        ));
        assert(bufs.flatten() == bufs.first() + rest.flatten());
        assert(bufs.first() + rest_data =~= data);
    }
}

/// Law: a well-formed descriptor emits exactly its file size in bytes — no
/// truncation and no duplication — whatever bytes its slots hold.
pub proof fn lemma_emitted_len(d: RequestDescriptor)
    requires
        d.wf(),
    ensures
        d.emitted_bytes().len() == d.file_size as nat,
{
    let size = d.file_size as nat;
    lemma_layout_props(size);
    assert forall|i: int|
        0 <= i < d.slots_view().len() implies (#[trigger] d.slots_view()[i]).len() == slot_len_at(
        size,
        layout_block_size(size),
        i as nat,
    ) by {
        assert(d.buffers@[i]@.len() == slot_len(size, i as nat));
    }
    lemma_slots_flatten_len_at(size, layout_block_size(size), d.slots_view());
}

/// Law: scatter then gather is the identity.  A descriptor whose slots hold
/// the blocks of a file's bytes emits exactly those bytes.
pub proof fn lemma_scatter_gather_round_trip(d: RequestDescriptor, data: Seq<u8>)
    requires
        d.filled_from(data),
    ensures
        d.emitted_bytes() == data,
{
    let size = d.file_size as nat;
    lemma_layout_props(size);
    assert forall|i: int|
        0 <= i < d.slots_view().len() implies (#[trigger] d.slots_view()[i]) == data.subrange(
        i * layout_block_size(size) as int,
        i * layout_block_size(size) as int + slot_len_at(
            size,
            layout_block_size(size),
            i as nat,
        ) as int,
    ) by {
        assert(d.buffers@[i]@ == data.subrange(
            i * layout_block_size(size) as int,
            i * layout_block_size(size) as int + slot_len(size, i as nat) as int,
        ));
    }
    lemma_chunks_flatten_at(size, layout_block_size(size), data, d.slots_view());
}

/// Law: emission is deterministic.  Two descriptors filled from the same
/// immutable file contents emit byte-identical output, so a second run over
/// the same file set reproduces the first.
pub proof fn lemma_rerun_identical(d1: RequestDescriptor, d2: RequestDescriptor, data: Seq<u8>)
    requires
        d1.filled_from(data),
        d2.filled_from(data),
    ensures
        d1.emitted_bytes() == d2.emitted_bytes(),
{
    lemma_scatter_gather_round_trip(d1, data);
    lemma_scatter_gather_round_trip(d2, data);
}

/// Builds the request descriptor for a file of `file_size` bytes: one
/// zero-filled buffer slot per block of the derived layout, sized so that
/// the slot lengths sum to exactly the file size.
pub fn build_request(file_size: usize) -> (d: RequestDescriptor)
    ensures
        d.file_size == file_size,
        d.wf(),
        d.buffers@.len() == layout_block_count(file_size as nat),
        forall|i: int, j: int|
            0 <= i < d.slots_view().len() && 0 <= j < d.slots_view()[i].len()
                ==> d.slots_view()[i][j] == 0u8,
{
    let (block_size, block_count) = compute_layout(file_size);
    let mut buffers: Vec<Vec<u8>> = Vec::new();
    let mut remaining: usize = file_size;
    let mut i: usize = 0;
    while i < block_count
        invariant
            i <= block_count,
            1 <= block_size,
            block_size as nat == layout_block_size(file_size as nat),
            block_count as nat == layout_block_count(file_size as nat),
            block_count as nat == blocks_of(file_size as nat, block_size as nat),
            buffers@.len() == i,
            remaining as nat == remaining_after(file_size as nat, block_size as nat, i as nat),
            forall|k: int|
                0 <= k < i ==> (#[trigger] buffers@[k])@.len() == slot_len(
                    file_size as nat,
                    k as nat,
                ),
            forall|k: int, j: int|
                0 <= k < i && 0 <= j < buffers@[k]@.len() ==> buffers@[k]@[j] == 0u8,
        decreases block_count - i,
    {
        proof {
            lemma_slot_step(file_size as nat, block_size as nat, i as nat);
        }
        let len_i = if remaining < block_size {
            remaining
        } else {
            block_size
        };
        let mut slot: Vec<u8> = Vec::new();
        let mut j: usize = 0;
        while j < len_i
            invariant
                j <= len_i,
                slot@.len() == j,
                forall|t: int| 0 <= t < j ==> slot@[t] == 0u8,
            decreases len_i - j,
        {
            slot.push(0u8);
            j = j + 1;
        }
        buffers.push(slot);
        remaining = remaining - len_i;
        i = i + 1;
    }
    RequestDescriptor { file_size, buffers }
}

impl RequestDescriptor {
    /// Fills the descriptor's slots with the blocks of `data`, as the kernel
    /// scatter-read does when `data` is the file's on-disk contents: slot `i`
    /// receives bytes `i * block_size ..` up to its slot length.
    pub fn fill_buffers(&mut self, data: &Vec<u8>)
        requires
            data@.len() == old(self).file_size as nat,
        ensures
            final(self).file_size == old(self).file_size,
            final(self).wf(),
            final(self).filled_from(data@),
    {
        let (block_size, block_count) = compute_layout(self.file_size);
        let mut buffers: Vec<Vec<u8>> = Vec::new();
        let mut remaining: usize = self.file_size;
        let mut offset: usize = 0;
        let mut i: usize = 0;
        let size = self.file_size;
        while i < block_count
            invariant
                i <= block_count,
                1 <= block_size,
                size as nat == data@.len(),
                block_size as nat == layout_block_size(size as nat),
                block_count as nat == blocks_of(size as nat, block_size as nat),
                buffers@.len() == i,
                offset as nat + remaining as nat == size as nat,
                remaining as nat == remaining_after(size as nat, block_size as nat, i as nat),
                forall|k: int|
                    0 <= k < i ==> (#[trigger] buffers@[k])@ == data@.subrange(
                        k * block_size as int,
                        k * block_size as int + slot_len_at(
                            size as nat,
                            block_size as nat,
                            k as nat,
                        ) as int,
                    ),
            decreases block_count - i,
        {
            proof {
                lemma_slot_step(size as nat, block_size as nat, i as nat);
                lemma_slot_in_range(size as nat, block_size as nat, i as nat);
                assert(offset as nat == i as nat * block_size as nat);
            }
            let len_i = if remaining < block_size {
                remaining
            } else {
                block_size
            };
            let mut slot: Vec<u8> = Vec::new();
            let mut j: usize = 0;
            while j < len_i
                invariant
                    j <= len_i,
                    slot@.len() == j,
                    offset + len_i <= size,
                    size as nat == data@.len(),
                    slot@ == data@.subrange(offset as int, offset as int + j as int),
                decreases len_i - j,
            {
                slot.push(data[offset + j]);
                proof {
                    assert(slot@ =~= data@.subrange(offset as int, offset as int + j as int + 1));
                }
                j = j + 1;
            }
            buffers.push(slot);
            offset = offset + len_i;
            remaining = remaining - len_i;
            i = i + 1;
        }
        self.buffers = buffers;
        proof {
            lemma_layout_props(size as nat);
            assert forall|k: int| 0 <= k < self.buffers@.len() implies (
            #[trigger] self.buffers@[k])@.len() == slot_len(size as nat, k as nat) by {
                lemma_slot_in_range(size as nat, block_size as nat, k as nat);
                assert(k * block_size as int == (k as nat * block_size as nat) as int);
                assert(self.buffers@[k]@ == data@.subrange(
                    k * block_size as int,
                    k * block_size as int + slot_len_at(
                        size as nat,
                        block_size as nat,
                        k as nat,
                    ) as int,
                ));
                assert(0 <= k * block_size as int);
                assert(k * block_size as int + slot_len_at(
                    size as nat,
                    block_size as nat,
                    k as nat,
                ) as int <= size as int);
            }
        }
    }
}

} // verus!
