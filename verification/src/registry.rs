//! The in-flight request registry: explicit ownership of descriptors keyed
//! by small integer tokens.
//!
//! A submitted operation is tagged with the token its descriptor was
//! registered under; when the ring hands the token back with a completion,
//! the drainer recovers the descriptor here.  The registry also keeps every
//! registered descriptor — and so the file handle's buffers — alive until
//! its completion is drained, and never rebuilds ownership from a raw
//! address.

use vstd::prelude::*;

verus! {

use crate::descriptor::RequestDescriptor;
use crate::drain::DrainError;

/// Maps each issued token to the descriptor registered under it, `None`
/// once the descriptor has been taken for draining.
pub struct Registry {
    slots: Vec<Option<RequestDescriptor>>,
}

impl Registry {
    /// The descriptors currently registered, by token.
    pub closed spec fn view(&self) -> Seq<Option<RequestDescriptor>> {
        self.slots@
    }

    /// Creates an empty registry: no token is live.
    pub fn new() -> (r: Registry)
        ensures
            r@ == Seq::<Option<RequestDescriptor>>::empty(),
    {
        Registry { slots: Vec::new() }
    }

    /// Number of tokens ever issued, drained ones included.
    pub fn token_count(&self) -> (n: usize)
        ensures
            n == self@.len(),
    {
        self.slots.len()
    }

    /// Registers a descriptor and returns the fresh token that names it;
    /// tokens are consecutive indices, so every earlier registration is
    /// untouched.
    pub fn register(&mut self, d: RequestDescriptor) -> (token: usize)
        ensures
            token == old(self)@.len(),
            final(self)@ == old(self)@.push(Some(d)),
    {
        let token = self.slots.len();
        self.slots.push(Some(d));
        token
    }

    /// Resolves a completion token: yields the descriptor registered under
    /// it and clears the slot, so a second resolution of the same token
    /// fails.  A token never issued, or already taken, is refused as
    /// [`DrainError::UnknownToken`]; no other slot changes either way.
    pub fn take(&mut self, token: usize) -> (r: Result<RequestDescriptor, DrainError>)
        ensures
            token < old(self)@.len() && old(self)@[token as int] is Some ==> r == Ok::<
                RequestDescriptor,
                DrainError,
            >(old(self)@[token as int]->Some_0) && final(self)@ == old(self)@.update(
                token as int,
                None::<RequestDescriptor>,
            ),
            !(token < old(self)@.len() && old(self)@[token as int] is Some) ==> r == Err::<
                RequestDescriptor,
                DrainError,
            >(DrainError::UnknownToken) && final(self)@ == old(self)@,
    {
        if token >= self.slots.len() {
            return Err(DrainError::UnknownToken);
        }
        let mut taken: Option<RequestDescriptor> = None;
        core::mem::swap(&mut taken, &mut self.slots[token]);
        match taken {
            Some(d) => Ok(d),
            None => {
                proof {
                    assert(self.slots@ =~= old(self).slots@);
                }
                Err(DrainError::UnknownToken)
            },
        }
    }
}

} // verus!
