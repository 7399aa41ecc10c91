//! The completion drain step: reassembling a file's bytes from a
//! descriptor's buffer slots.
//!
//! The drainer re-derives the layout from the descriptor's stored file size
//! with the same rule the builder used, guards against a descriptor whose
//! slots disagree with that layout instead of walking past them, and
//! otherwise emits every slot's bytes in order.

use vstd::prelude::*;

verus! {

use crate::descriptor::{lemma_emitted_len, RequestDescriptor};
use crate::layout::{
    blocks_of, compute_layout, layout_block_size, lemma_slot_step, remaining_after, slot_len,
};

/// Why a completion could not be drained.  Every variant is a fatal
/// integrity violation: a token that resolves to no live descriptor, or a
/// descriptor whose slots disagree with the layout derived from its file
/// size.
#[derive(Clone, Copy, Debug, PartialEq, Eq, Structural)]
pub enum DrainError {
    /// The completion token does not name a registered in-flight request.
    UnknownToken,
    /// The descriptor owns a different number of slots than the layout
    /// derived from its file size requires.
    BlockCountMismatch,
    /// A slot holds a different byte count than its block's valid length.
    SlotLengthMismatch,
}

/// Drains one completed request: checks the descriptor against the layout
/// re-derived from its file size, then emits its slots' bytes concatenated
/// in file order.  Consumes the descriptor, releasing its buffers.
///
/// Returns the emitted bytes exactly when the descriptor is well formed;
/// the emitted byte count then equals the file size exactly.
pub fn drain_descriptor(d: RequestDescriptor) -> (r: Result<Vec<u8>, DrainError>)
    ensures
        d.wf() <==> r is Ok,
        r matches Ok(out) ==> out@ == d.emitted_bytes() && out@.len() == d.file_size as nat,
        !d.counts_consistent() ==> r == Err::<Vec<u8>, DrainError>(DrainError::BlockCountMismatch),
        d.counts_consistent() && !d.lengths_consistent() ==> r == Err::<Vec<u8>, DrainError>(
            DrainError::SlotLengthMismatch,
        ),
{
    let size = d.file_size;
    let (block_size, block_count) = compute_layout(size);
    if d.buffers.len() != block_count {
        return Err(DrainError::BlockCountMismatch);
    }
    let mut out: Vec<u8> = Vec::new();
    let mut remaining: usize = size;
    let mut i: usize = 0;
    while i < block_count
        invariant
            i <= block_count,
            1 <= block_size,
            block_size as nat == layout_block_size(size as nat),
            block_count as nat == blocks_of(size as nat, block_size as nat),
            d.buffers@.len() == block_count,
            d.file_size == size,
            remaining as nat == remaining_after(size as nat, block_size as nat, i as nat),
            forall|k: int|
                0 <= k < i ==> (#[trigger] d.buffers@[k])@.len() == slot_len(
                    size as nat,
                    k as nat,
                ),
            out@ == d.slots_view().take(i as int).flatten(),
        decreases block_count - i,
    {
        proof {
            lemma_slot_step(size as nat, block_size as nat, i as nat);
        }
        let expected = if remaining < block_size {
            remaining
        } else {
            block_size
        };
        if d.buffers[i].len() != expected {
            return Err(DrainError::SlotLengthMismatch);
        }
        out.extend_from_slice(d.buffers[i].as_slice());
        proof {
            let prev = d.slots_view().take(i as int);
            assert(out@ =~= prev.flatten() + d.buffers@[i as int]@);
            prev.lemma_flatten_push(d.slots_view()[i as int]);
            assert(d.slots_view().take(i as int + 1) =~= prev.push(d.slots_view()[i as int]));
        }
        remaining = remaining - expected;
        i = i + 1;
    }
    proof {
        assert(d.slots_view().take(block_count as int) =~= d.slots_view());
        lemma_emitted_len(d);
    }
    Ok(out)
}

} // verus!
