//! The instructions that a chip offers for hashing with Keccak-f[1600].

use vstd::prelude::*;

use crate::constants::KECCAK_ABSORB_BYTES;

verus! {

/// A chip that lays out the steps of the Keccak sponge.
///
/// `L` is the layouter in which a circuit is built: each instruction that
/// extends the circuit takes it and leaves it changed.
///
/// Beside each instruction stands the relation between what it was given and
/// what came of it. A chip defines its relations; the gadgets are correct
/// whatever they are, and say in their own contracts which instructions they
/// issue, on what, and in which order. A relation that a chip does not define
/// always holds: the chip then says nothing of that instruction.
pub trait Keccackf1600Instructions<L>: Sized {
    /// A message byte that stands in a cell of the circuit.
    type AssignedByte;

    /// A message block whose bytes stand in cells of the circuit.
    type AssignedBlock;

    /// The state of the sponge.
    type State;

    /// What is squeezed out of the state.
    type Digest;

    /// Why an instruction could not be laid out.
    type Error;

    /// The bytes of an assigned block, which are a function of the block. A chip
    /// that is itself verified has to define it: of the default nothing is
    /// known, so no contract of `assigned_bytes` can be proved from it.
    open spec fn block_bytes(block: Self::AssignedBlock) -> Seq<Self::AssignedByte> {
        arbitrary()
    }

    /// Assigning `bytes` in the layouter `pre` may leave `post` and reply so.
    open spec fn assigns(
        &self,
        pre: L,
        bytes: Seq<Option<u8>>,
        post: L,
        reply: Result<Self::AssignedBlock, Self::Error>,
    ) -> bool {
        true
    }

    /// Constraining `bytes` in the layouter `pre` may leave `post` and reply so.
    open spec fn constrains(
        &self,
        pre: L,
        bytes: Seq<Self::AssignedByte>,
        constraints: Seq<(usize, u8)>,
        post: L,
        reply: Result<(), Self::Error>,
    ) -> bool {
        true
    }

    /// Initializing a state in the layouter `pre` may leave `post` and reply so.
    open spec fn initializes(
        &self,
        pre: L,
        block: Self::AssignedBlock,
        post: L,
        reply: Result<Self::State, Self::Error>,
    ) -> bool {
        true
    }

    /// Permuting a state and absorbing a block in the layouter `pre` may leave
    /// `post` and reply so.
    open spec fn absorbs(
        &self,
        pre: L,
        state: Self::State,
        block: Option<Self::AssignedBlock>,
        post: L,
        reply: Result<Self::State, Self::Error>,
    ) -> bool {
        true
    }

    /// Permuting a state in the layouter `pre` may leave `post` and reply so.
    open spec fn permutes(
        &self,
        pre: L,
        state: Self::State,
        post: L,
        reply: Result<Self::State, Self::Error>,
    ) -> bool {
        true
    }

    /// Squeezing a state in the layouter `pre` may leave `post` and reply so.
    open spec fn squeezes(
        &self,
        pre: L,
        state: Self::State,
        post: L,
        reply: Result<Self::Digest, Self::Error>,
    ) -> bool {
        true
    }

    /// The bytes of an assigned block, in the order of the message.
    fn assigned_bytes(block: &Self::AssignedBlock) -> (bytes: [Self::AssignedByte;
        KECCAK_ABSORB_BYTES])
        ensures
            bytes@ == Self::block_bytes(*block),
    ;

    /// Assigns the bytes of a message block to cells.
    fn assign_message_block(
        &self,
        layouter: &mut L,
        bytes: &[Option<u8>; KECCAK_ABSORB_BYTES],
    ) -> (reply: Result<Self::AssignedBlock, Self::Error>)
        ensures
            self.assigns(*old(layouter), bytes@, *final(layouter), reply),
    ;

    /// Constrains, in a region of its own, assigned bytes to constants: for
    /// each `(position, constant)` in turn `bytes[position]` to equal
    /// `constant`. What is done inside the region is
    /// `region::impose_constraints`.
    fn constrain_constants(
        &self,
        layouter: &mut L,
        bytes: &[Self::AssignedByte],
        constraints: &[(usize, u8)],
    ) -> (reply: Result<(), Self::Error>)
        requires
            forall|i: int| 0 <= i < constraints@.len() ==> (#[trigger] constraints@[i]).0 < bytes@.len(),
        ensures
            self.constrains(*old(layouter), bytes@, constraints@, *final(layouter), reply),
    ;

    /// Absorbs the first block into the all-zero state.
    fn initialize_and_absorb(
        &self,
        layouter: &mut L,
        block: &Self::AssignedBlock,
    ) -> (reply: Result<Self::State, Self::Error>)
        ensures
            self.initializes(*old(layouter), *block, *final(layouter), reply),
    ;

    /// Applies the permutation to a state, then absorbs a block if there is
    /// one.
    fn keccakf_and_absorb(
        &self,
        layouter: &mut L,
        state: &Self::State,
        block: Option<&Self::AssignedBlock>,
    ) -> (reply: Result<Self::State, Self::Error>)
        ensures
            self.absorbs(
                *old(layouter),
                *state,
                match block {
                    Some(b) => Some(*b),
                    None => None,
                },
                *final(layouter),
                reply,
            ),
    ;

    /// Applies the permutation to a state.
    fn keccakf(&self, layouter: &mut L, state: &Self::State) -> (reply: Result<
        Self::State,
        Self::Error,
    >)
        ensures
            self.permutes(*old(layouter), *state, *final(layouter), reply),
    ;

    /// Reads the digest out of a state.
    fn squeeze(&self, layouter: &mut L, state: &Self::State) -> (reply: Result<
        Self::Digest,
        Self::Error,
    >)
        ensures
            self.squeezes(*old(layouter), *state, *final(layouter), reply),
    ;
}

} // verus!
