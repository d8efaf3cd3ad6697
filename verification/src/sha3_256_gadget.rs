//! Gadgets that compute a digest in circuit.

use vstd::prelude::*;
use vstd::slice::slice_subrange;

use crate::constants::KECCAK_ABSORB_BYTES;
use crate::instructions::Keccackf1600Instructions;
use crate::padding::{constraints_for_padding, pad_message, split_blocks, HashMode};
use crate::padding::{
    blocks, missing_bytes, pad, padded_length_is_whole_blocks, padding_constraints,
};

verus! {

/// Assigning one more block, where the blocks before it left the layouter
/// `mid` and replied `before`, may leave `post` and reply so.
pub open spec fn assigns_next_block<L, K: Keccackf1600Instructions<L>>(
    chip: K,
    mid: L,
    before: Result<Seq<K::AssignedBlock>, K::Error>,
    message: Seq<Option<u8>>,
    post: L,
    reply: Result<Seq<K::AssignedBlock>, K::Error>,
) -> bool {
    match before {
        Err(e) => post == mid && reply == Err::<Seq<K::AssignedBlock>, K::Error>(e),
        Ok(done) => exists|one: Result<K::AssignedBlock, K::Error>|
            #[trigger] chip.assigns(mid, message, post, one) && reply == match one {
                Err(e) => Err::<Seq<K::AssignedBlock>, K::Error>(e),
                Ok(block) => Ok(done.push(block)),
            },
    }
}

/// Assigning the blocks of `messages` one after another, up to the first that
/// cannot be assigned, may lead from the layouter `pre` to `post` and reply
/// so.
pub open spec fn assigns_blocks<L, K: Keccackf1600Instructions<L>>(
    chip: K,
    pre: L,
    messages: Seq<Seq<Option<u8>>>,
    post: L,
    reply: Result<Seq<K::AssignedBlock>, K::Error>,
) -> bool
    decreases messages.len(),
{
    if messages.len() == 0 {
        post == pre && reply == Ok::<Seq<K::AssignedBlock>, K::Error>(Seq::empty())
    } else {
        exists|mid: L, before: Result<Seq<K::AssignedBlock>, K::Error>|
            #[trigger] assigns_next_block(chip, mid, before, messages.last(), post, reply)
                && assigns_blocks(chip, pre, messages.drop_last(), mid, before)
    }
}

/// The bytes of consecutive assigned blocks.
pub open spec fn bytes_of_blocks<L, K: Keccackf1600Instructions<L>>(
    assigned: Seq<K::AssignedBlock>,
) -> Seq<K::AssignedByte>
    decreases assigned.len(),
{
    if assigned.len() == 0 {
        Seq::empty()
    } else {
        bytes_of_blocks::<L, K>(assigned.drop_last()) + K::block_bytes(assigned.last())
    }
}

/// Permuting and absorbing for one more block, where the blocks before it left
/// the layouter `mid` and replied `before`, may leave `post` and reply so.
pub open spec fn absorbs_next_block<L, K: Keccackf1600Instructions<L>>(
    chip: K,
    mid: L,
    before: Result<K::State, K::Error>,
    block: K::AssignedBlock,
    post: L,
    reply: Result<K::State, K::Error>,
) -> bool {
    match before {
        Err(e) => post == mid && reply == Err::<K::State, K::Error>(e),
        Ok(state) => chip.absorbs(mid, state, Some(block), post, reply),
    }
}

/// Starting from the state `first`, permuting and absorbing for each block in
/// turn, up to the first that fails, may lead from the layouter `pre` to
/// `post` and reply so.
pub open spec fn absorbs_blocks<L, K: Keccackf1600Instructions<L>>(
    chip: K,
    pre: L,
    first: K::State,
    rest: Seq<K::AssignedBlock>,
    post: L,
    reply: Result<K::State, K::Error>,
) -> bool
    decreases rest.len(),
{
    if rest.len() == 0 {
        post == pre && reply == Ok::<K::State, K::Error>(first)
    } else {
        exists|mid: L, before: Result<K::State, K::Error>|
            #[trigger] absorbs_next_block(chip, mid, before, rest.last(), post, reply)
                && absorbs_blocks(chip, pre, first, rest.drop_last(), mid, before)
    }
}

/// Permuting `state` a last time and squeezing it may lead from the layouter
/// `pre` to `post` and reply so.
pub open spec fn finishes<L, K: Keccackf1600Instructions<L>>(
    chip: K,
    pre: L,
    state: K::State,
    post: L,
    reply: Result<K::Digest, K::Error>,
) -> bool {
    exists|mid: L, permuted: Result<K::State, K::Error>|
        #[trigger] chip.permutes(pre, state, mid, permuted) && match permuted {
            Err(e) => post == mid && reply == Err::<K::Digest, K::Error>(e),
            Ok(last) => chip.squeezes(mid, last, post, reply),
        }
}

/// Absorbing the blocks after the first into the state `first`, then
/// finishing, may lead from the layouter `pre` to `post` and reply so.
pub open spec fn absorbs_and_finishes<L, K: Keccackf1600Instructions<L>>(
    chip: K,
    pre: L,
    first: K::State,
    rest: Seq<K::AssignedBlock>,
    post: L,
    reply: Result<K::Digest, K::Error>,
) -> bool {
    exists|mid: L, absorbed: Result<K::State, K::Error>|
        #[trigger] absorbs_blocks(chip, pre, first, rest, mid, absorbed) && match absorbed {
            Err(e) => post == mid && reply == Err::<K::Digest, K::Error>(e),
            Ok(state) => finishes(chip, mid, state, post, reply),
        }
}

/// Running the sponge over assigned blocks (at least one of them) may lead
/// from the layouter `pre` to `post` and reply so.
pub open spec fn runs_sponge<L, K: Keccackf1600Instructions<L>>(
    chip: K,
    pre: L,
    assigned: Seq<K::AssignedBlock>,
    post: L,
    reply: Result<K::Digest, K::Error>,
) -> bool {
    exists|mid: L, initial: Result<K::State, K::Error>|
        #[trigger] chip.initializes(pre, assigned.first(), mid, initial) && match initial {
            Err(e) => post == mid && reply == Err::<K::Digest, K::Error>(e),
            Ok(first) => absorbs_and_finishes(chip, mid, first, assigned.skip(1), post, reply),
        }
}

/// Constraining the padding of a message of `len` bytes, whose blocks are
/// assigned, then running the sponge over them, may lead from the layouter
/// `pre` to `post` and reply so.
pub open spec fn constrains_and_runs_sponge<L, K: Keccackf1600Instructions<L>>(
    chip: K,
    mode: HashMode,
    len: nat,
    pre: L,
    assigned: Seq<K::AssignedBlock>,
    post: L,
    reply: Result<K::Digest, K::Error>,
) -> bool {
    let padding_bytes = bytes_of_blocks::<L, K>(assigned).skip(len as int);
    exists|mid: L, constrained: Result<(), K::Error>|
        #[trigger] chip.constrains(
            pre,
            padding_bytes,
            padding_constraints(mode, missing_bytes(len)),
            mid,
            constrained,
        ) && match constrained {
            Err(e) => post == mid && reply == Err::<K::Digest, K::Error>(e),
            Ok(_) => runs_sponge(chip, mid, assigned, post, reply),
        }
}

/// Where the blocks of a message of `len` bytes are assigned, the rest of a
/// digest may lead from the layouter `pre` to `post` and reply so. The blocks
/// are whole: each holds as many bytes as are absorbed at once.
pub open spec fn digests_blocks<L, K: Keccackf1600Instructions<L>>(
    chip: K,
    mode: HashMode,
    len: nat,
    pre: L,
    assigned: Seq<K::AssignedBlock>,
    post: L,
    reply: Result<(Seq<K::AssignedByte>, K::Digest), K::Error>,
) -> bool {
    &&& bytes_of_blocks::<L, K>(assigned).len() == assigned.len() * KECCAK_ABSORB_BYTES
    &&& forall|i: int|
        0 <= i < assigned.len() ==> K::block_bytes(#[trigger] assigned[i]).len()
            == KECCAK_ABSORB_BYTES
    &&& exists|digest: Result<K::Digest, K::Error>|
        #[trigger] constrains_and_runs_sponge(chip, mode, len, pre, assigned, post, digest)
            && reply == match digest {
            Err(e) => Err::<(Seq<K::AssignedByte>, K::Digest), K::Error>(e),
            Ok(d) => Ok((bytes_of_blocks::<L, K>(assigned).take(len as int), d)),
        }
}

/// Where assigning the blocks of a message of `len` bytes left the layouter
/// `mid` and replied `assigned`, the rest of a digest may leave `post` and
/// reply so.
pub open spec fn digests_assigned<L, K: Keccackf1600Instructions<L>>(
    chip: K,
    mode: HashMode,
    len: nat,
    mid: L,
    assigned: Result<Seq<K::AssignedBlock>, K::Error>,
    post: L,
    reply: Result<(Seq<K::AssignedByte>, K::Digest), K::Error>,
) -> bool {
    match assigned {
        Err(e) => post == mid && reply == Err::<(Seq<K::AssignedByte>, K::Digest), K::Error>(e),
        Ok(done) => digests_blocks(chip, mode, len, mid, done, post, reply),
    }
}

/// Digesting `message` in the given mode may lead from the layouter `pre` to
/// `post` and reply so: the padded message is assigned block by block, the
/// padding bytes are constrained, the sponge is run over the blocks, and the
/// reply holds the assigned bytes of the message and the digest. The first
/// instruction that fails ends the run, and its error is the reply.
pub open spec fn digests<L, K: Keccackf1600Instructions<L>>(
    chip: K,
    mode: HashMode,
    pre: L,
    message: Seq<Option<u8>>,
    post: L,
    reply: Result<(Seq<K::AssignedByte>, K::Digest), K::Error>,
) -> bool {
    exists|mid: L, assigned: Result<Seq<K::AssignedBlock>, K::Error>|
        #[trigger] digests_assigned(chip, mode, message.len(), mid, assigned, post, reply)
            && assigns_blocks(chip, pre, blocks(pad(mode, message)), mid, assigned)
}

/// What a run replied, with the bytes as a sequence.
pub open spec fn reply_view<B, D, E>(reply: Result<(Vec<B>, D), E>) -> Result<(Seq<B>, D), E> {
    match reply {
        Ok(pair) => Ok((pair.0@, pair.1)),
        Err(e) => Err(e),
    }
}

/// Moves the elements of an array into a vector, in order: `Vec::from` of the
/// standard library.
#[verifier::external_body]
fn array_into_vec<T, const N: usize>(array: [T; N]) -> (vec: Vec<T>)
    ensures
        vec@ == array@,
{
    Vec::from(array)
}

proof fn failed_assignment_ends_the_run<L, K: Keccackf1600Instructions<L>>(
    chip: K,
    pre: L,
    messages: Seq<Seq<Option<u8>>>,
    count: int,
    post: L,
    e: K::Error,
)
    requires
        0 <= count <= messages.len(),
        assigns_blocks(
            chip,
            pre,
            messages.take(count),
            post,
            Err::<Seq<K::AssignedBlock>, K::Error>(e),
        ),
    ensures
        assigns_blocks(chip, pre, messages, post, Err::<Seq<K::AssignedBlock>, K::Error>(e)),
    decreases messages.len() - count,
{
    if count == messages.len() {
        assert(messages.take(count) =~= messages);
    } else {
        let failed = Err::<Seq<K::AssignedBlock>, K::Error>(e);
        assert(messages.take(count + 1).drop_last() =~= messages.take(count));
        assert(assigns_next_block(
            chip,
            post,
            failed,
            messages.take(count + 1).last(),
            post,
            failed,
        ));
        failed_assignment_ends_the_run(chip, pre, messages, count + 1, post, e);
    }
}

proof fn failed_absorption_ends_the_run<L, K: Keccackf1600Instructions<L>>(
    chip: K,
    pre: L,
    first: K::State,
    rest: Seq<K::AssignedBlock>,
    count: int,
    post: L,
    e: K::Error,
)
    requires
        0 <= count <= rest.len(),
        absorbs_blocks(chip, pre, first, rest.take(count), post, Err::<K::State, K::Error>(e)),
    ensures
        absorbs_blocks(chip, pre, first, rest, post, Err::<K::State, K::Error>(e)),
    decreases rest.len() - count,
{
    if count == rest.len() {
        assert(rest.take(count) =~= rest);
    } else {
        let failed = Err::<K::State, K::Error>(e);
        assert(rest.take(count + 1).drop_last() =~= rest.take(count));
        assert(absorbs_next_block(
            chip,
            post,
            failed,
            rest.take(count + 1).last(),
            post,
            failed,
        ));
        failed_absorption_ends_the_run(chip, pre, first, rest, count + 1, post, e);
    }
}

/// A gadget that computes a digest in either mode.
#[derive(Debug)]
pub struct Sha3Family<'a, KeccakF> {
    chip: &'a KeccakF,
    mode: HashMode,
}

impl<'a, KeccakF> Sha3Family<'a, KeccakF> {
    /// The chip that lays out the instructions.
    pub closed spec fn chip(&self) -> KeccakF {
        *self.chip
    }

    /// The hash mode.
    pub closed spec fn mode(&self) -> HashMode {
        self.mode
    }

    pub fn new(chip: &'a KeccakF, mode: HashMode) -> (family: Self)
        ensures
            family.chip() == *chip,
            family.mode() == mode,
    {
        Self { chip, mode }
    }

    /// Constrains the padding bytes to have the right (constant) values.
    pub fn constrain_padding<L>(
        &self,
        layouter: &mut L,
        assigned_padding_bytes: &[KeccakF::AssignedByte],
    ) -> (reply: Result<(), KeccakF::Error>) where KeccakF: Keccackf1600Instructions<L>
        ensures
            self.chip().constrains(
                *old(layouter),
                assigned_padding_bytes@,
                padding_constraints(self.mode(), assigned_padding_bytes@.len()),
                *final(layouter),
                reply,
            ),
    {
        let constraints = constraints_for_padding(self.mode, assigned_padding_bytes.len());
        self.chip.constrain_constants(layouter, assigned_padding_bytes, constraints.as_slice())
    }

    /// Assigns the blocks of a padded message.
    fn assign_blocks<L>(
        &self,
        layouter: &mut L,
        messages: &Vec<[Option<u8>; KECCAK_ABSORB_BYTES]>,
    ) -> (reply: Result<Vec<KeccakF::AssignedBlock>, KeccakF::Error>) where
        KeccakF: Keccackf1600Instructions<L>,

        ensures
            assigns_blocks(
                self.chip(),
                *old(layouter),
                messages@.map_values(|m: [Option<u8>; KECCAK_ABSORB_BYTES]| m@),
                *final(layouter),
                match reply {
                    Ok(assigned) => Ok(assigned@),
                    Err(e) => Err(e),
                },
            ),
            reply matches Ok(assigned) ==> assigned@.len() == messages@.len(),
    {
        let mut assigned: Vec<KeccakF::AssignedBlock> = Vec::new();
        let ghost model = messages@.map_values(|m: [Option<u8>; KECCAK_ABSORB_BYTES]| m@);
        assert(model.take(0) =~= Seq::empty());
        for i in 0..messages.len()
            invariant
                model == messages@.map_values(|m: [Option<u8>; KECCAK_ABSORB_BYTES]| m@),
                assigned@.len() == i,
                assigns_blocks(
                    self.chip(),
                    *old(layouter),
                    model.take(i as int),
                    *layouter,
                    Ok::<Seq<KeccakF::AssignedBlock>, KeccakF::Error>(assigned@),
                ),
        {
            let ghost before = *layouter;
            let ghost done = assigned@;
            let ghost next = model.take(i + 1);
            assert(next.drop_last() =~= model.take(i as int));
            match self.chip.assign_message_block(layouter, &messages[i]) {
                Ok(block) => {
                    assigned.push(block);
                    assert(assigns_next_block(
                        self.chip(),
                        before,
                        Ok(done),
                        next.last(),
                        *layouter,
                        Ok(assigned@),
                    ));
                },
                Err(e) => {
                    proof {
                        assert(assigns_next_block(
                            self.chip(),
                            before,
                            Ok(done),
                            next.last(),
                            *layouter,
                            Err(e),
                        ));
                        failed_assignment_ends_the_run(
                            self.chip(),
                            *old(layouter),
                            model,
                            i + 1,
                            *layouter,
                            e,
                        );
                    }
                    return Err(e);
                },
            }
        }
        assert(model.take(model.len() as int) =~= model);
        Ok(assigned)
    }

    /// The bytes of consecutive assigned blocks.
    fn collect_bytes<L>(assigned: &Vec<KeccakF::AssignedBlock>) -> (bytes: Vec<
        KeccakF::AssignedByte,
    >) where KeccakF: Keccackf1600Instructions<L>
        ensures
            bytes@ == bytes_of_blocks::<L, KeccakF>(assigned@),
            bytes@.len() == assigned@.len() * KECCAK_ABSORB_BYTES,
            forall|i: int|
                0 <= i < assigned@.len() ==> KeccakF::block_bytes(#[trigger] assigned@[i]).len()
                    == KECCAK_ABSORB_BYTES,
    {
        let mut bytes: Vec<KeccakF::AssignedByte> = Vec::new();
        assert(assigned@.take(0) =~= Seq::empty());
        for i in 0..assigned.len()
            invariant
                bytes@ == bytes_of_blocks::<L, KeccakF>(assigned@.take(i as int)),
                bytes@.len() == i * KECCAK_ABSORB_BYTES,
                forall|k: int|
                    0 <= k < i ==> KeccakF::block_bytes(#[trigger] assigned@[k]).len()
                        == KECCAK_ABSORB_BYTES,
        {
            let mut block = array_into_vec(KeccakF::assigned_bytes(&assigned[i]));
            bytes.append(&mut block);
            assert(assigned@.take(i + 1).drop_last() =~= assigned@.take(i as int));
        }
        assert(assigned@.take(assigned@.len() as int) =~= assigned@);
        bytes
    }

    /// Starting from the state after the first block, permutes and absorbs for
    /// each remaining block.
    fn absorb_rest<L>(
        &self,
        layouter: &mut L,
        initial_state: KeccakF::State,
        assigned: &Vec<KeccakF::AssignedBlock>,
    ) -> (reply: Result<KeccakF::State, KeccakF::Error>) where
        KeccakF: Keccackf1600Instructions<L>,

        requires
            assigned@.len() >= 1,
        ensures
            absorbs_blocks(
                self.chip(),
                *old(layouter),
                initial_state,
                assigned@.skip(1),
                *final(layouter),
                reply,
            ),
    {
        let ghost rest = assigned@.skip(1);
        let mut state = initial_state;
        assert(rest.take(0) =~= Seq::empty());
        for i in 1..assigned.len()
            invariant
                1 <= assigned@.len(),
                rest == assigned@.skip(1),
                absorbs_blocks(
                    self.chip(),
                    *old(layouter),
                    initial_state,
                    rest.take(i - 1),
                    *layouter,
                    Ok::<KeccakF::State, KeccakF::Error>(state),
                ),
        {
            let ghost before = *layouter;
            let ghost so_far = Ok::<KeccakF::State, KeccakF::Error>(state);
            let ghost next = rest.take(i as int);
            assert(next.drop_last() =~= rest.take(i - 1));
            assert(next.last() == assigned@[i as int]);
            match self.chip.keccakf_and_absorb(layouter, &state, Some(&assigned[i])) {
                Ok(absorbed) => {
                    assert(absorbs_next_block(
                        self.chip(),
                        before,
                        so_far,
                        next.last(),
                        *layouter,
                        Ok(absorbed),
                    ));
                    state = absorbed;
                },
                Err(e) => {
                    proof {
                        assert(absorbs_next_block(
                            self.chip(),
                            before,
                            so_far,
                            next.last(),
                            *layouter,
                            Err(e),
                        ));
                        failed_absorption_ends_the_run(
                            self.chip(),
                            *old(layouter),
                            initial_state,
                            rest,
                            i as int,
                            *layouter,
                            e,
                        );
                    }
                    return Err(e);
                },
            }
        }
        assert(rest.take(rest.len() as int) =~= rest);
        Ok(state)
    }

    /// Runs the sponge over assigned blocks.
    fn run_sponge<L>(&self, layouter: &mut L, assigned: &Vec<KeccakF::AssignedBlock>) -> (reply:
        Result<KeccakF::Digest, KeccakF::Error>) where KeccakF: Keccackf1600Instructions<L>
        requires
            assigned@.len() >= 1,
        ensures
            runs_sponge(self.chip(), *old(layouter), assigned@, *final(layouter), reply),
    {
        // initialize the state from the first block
        assert(assigned@.first() == assigned@[0]);
        let initial_state = match self.chip.initialize_and_absorb(layouter, &assigned[0]) {
            Ok(initial_state) => initial_state,
            Err(e) => return Err(e),
        };
        let ghost initialized = *layouter;

        // permute and absorb for each remaining block
        let state = match self.absorb_rest(layouter, initial_state, assigned) {
            Ok(state) => state,
            Err(e) => {
                assert(absorbs_and_finishes(
                    self.chip(),
                    initialized,
                    initial_state,
                    assigned@.skip(1),
                    *layouter,
                    Err::<KeccakF::Digest, KeccakF::Error>(e),
                ));
                return Err(e);
            },
        };
        let ghost absorbed = *layouter;

        // do the final permutation
        let final_state = match self.chip.keccakf(layouter, &state) {
            Ok(final_state) => final_state,
            Err(e) => {
                assert(finishes(
                    self.chip(),
                    absorbed,
                    state,
                    *layouter,
                    Err::<KeccakF::Digest, KeccakF::Error>(e),
                ));
                return Err(e);
            },
        };

        // squeeze to get the result
        let digest = self.chip.squeeze(layouter, &final_state);
        assert(finishes(self.chip(), absorbed, state, *layouter, digest));
        assert(absorbs_and_finishes(
            self.chip(),
            initialized,
            initial_state,
            assigned@.skip(1),
            *layouter,
            digest,
        ));
        digest
    }

    /// Digests the `hash_input` in circuit and returns the assigned input and
    /// output.
    pub fn digest<L>(&self, layouter: &mut L, hash_input: &[Option<u8>]) -> (reply: Result<
        (Vec<KeccakF::AssignedByte>, KeccakF::Digest),
        KeccakF::Error,
    >) where KeccakF: Keccackf1600Instructions<L>
        ensures
            digests(
                self.chip(),
                self.mode(),
                *old(layouter),
                hash_input@,
                *final(layouter),
                reply_view(reply),
            ),
            reply matches Ok(pair) ==> pair.0@.len() == hash_input@.len(),
    {
        let input_len: usize = hash_input.len();
        proof {
            padded_length_is_whole_blocks(self.mode, hash_input@);
        }

        // pad the input
        let input = pad_message(self.mode, hash_input);

        // assign the blocks
        let messages = split_blocks(&input);
        assert(messages@.map_values(|m: [Option<u8>; KECCAK_ABSORB_BYTES]| m@) =~= blocks(input@));
        let assigned_blocks = match self.assign_blocks(layouter, &messages) {
            Ok(assigned_blocks) => assigned_blocks,
            Err(e) => {
                assert(digests_assigned(
                    self.chip(),
                    self.mode(),
                    input_len as nat,
                    *layouter,
                    Err(e),
                    *layouter,
                    Err(e),
                ));
                return Err(e);
            },
        };
        let ghost mid = *layouter;
        let mut assigned_bytes = Self::collect_bytes(&assigned_blocks);
        assert(assigned_bytes@.len() == input@.len());

        // apply the padding constraints
        let constrained = self.constrain_padding(
            layouter,
            slice_subrange(assigned_bytes.as_slice(), input_len, assigned_bytes.len()),
        );
        assert(assigned_bytes@.subrange(input_len as int, assigned_bytes@.len() as int)
            =~= assigned_bytes@.skip(input_len as int));
        let output = match constrained {
            Ok(_) => self.run_sponge(layouter, &assigned_blocks),
            Err(e) => Err(e),
        };
        assert(constrains_and_runs_sponge(
            self.chip(),
            self.mode(),
            input_len as nat,
            mid,
            assigned_blocks@,
            *layouter,
            output,
        ));
        assigned_bytes.truncate(input_len);
        assert(assigned_bytes@ =~= bytes_of_blocks::<L, KeccakF>(assigned_blocks@).take(
            input_len as int,
        ));
        let reply = match output {
            Ok(digest) => Ok((assigned_bytes, digest)),
            Err(e) => Err(e),
        };
        assert(digests_blocks(
            self.chip(),
            self.mode(),
            input_len as nat,
            mid,
            assigned_blocks@,
            *layouter,
            reply_view(reply),
        ));
        assert(digests_assigned(
            self.chip(),
            self.mode(),
            input_len as nat,
            mid,
            Ok(assigned_blocks@),
            *layouter,
            reply_view(reply),
        ));
        reply
    }
}

/// A gadget that computes a SHA3-256 digest.
#[derive(Debug)]
pub struct Sha3_256<KeccakF> {
    chip: KeccakF,
}

impl<KeccakF> Sha3_256<KeccakF> {
    /// The chip that lays out the instructions.
    pub closed spec fn chip(&self) -> KeccakF {
        self.chip
    }

    pub fn new(chip: KeccakF) -> (gadget: Self)
        ensures
            gadget.chip() == chip,
    {
        Self { chip }
    }

    /// Digests the `hash_input` in circuit and returns the assigned input and
    /// output.
    pub fn digest<L>(&self, layouter: &mut L, hash_input: &[Option<u8>]) -> (reply: Result<
        (Vec<KeccakF::AssignedByte>, KeccakF::Digest),
        KeccakF::Error,
    >) where KeccakF: Keccackf1600Instructions<L>
        ensures
            digests(
                self.chip(),
                HashMode::Sha3_256,
                *old(layouter),
                hash_input@,
                *final(layouter),
                reply_view(reply),
            ),
            reply matches Ok(pair) ==> pair.0@.len() == hash_input@.len(),
    {
        let hasher = Sha3Family::new(&self.chip, HashMode::Sha3_256);
        hasher.digest(layouter, hash_input)
    }
}

/// A gadget that computes a Keccak-256 digest.
#[derive(Debug)]
pub struct Keccak256<KeccakF> {
    chip: KeccakF,
}

impl<KeccakF> Keccak256<KeccakF> {
    /// The chip that lays out the instructions.
    pub closed spec fn chip(&self) -> KeccakF {
        self.chip
    }

    pub fn new(chip: KeccakF) -> (gadget: Self)
        ensures
            gadget.chip() == chip,
    {
        Self { chip }
    }

    /// Digests the `hash_input` in circuit and returns the assigned input and
    /// output.
    pub fn digest<L>(&self, layouter: &mut L, hash_input: &[Option<u8>]) -> (reply: Result<
        (Vec<KeccakF::AssignedByte>, KeccakF::Digest),
        KeccakF::Error,
    >) where KeccakF: Keccackf1600Instructions<L>
        ensures
            digests(
                self.chip(),
                HashMode::Keccak256,
                *old(layouter),
                hash_input@,
                *final(layouter),
                reply_view(reply),
            ),
            reply matches Ok(pair) ==> pair.0@.len() == hash_input@.len(),
    {
        let hasher = Sha3Family::new(&self.chip, HashMode::Keccak256);
        hasher.digest(layouter, hash_input)
    }
}

/// The view of a reply holds the same bytes in the same order, the same digest,
/// or the same error.
pub proof fn replies_are_viewed_unchanged<B, D, E>(bytes: Vec<B>, digest: D, e: E)
    ensures
        reply_view(Ok::<(Vec<B>, D), E>((bytes, digest))) == Ok::<(Seq<B>, D), E>(
            (bytes@, digest),
        ),
        reply_view(Err::<(Vec<B>, D), E>(e)) == Err::<(Seq<B>, D), E>(e),
{
}

} // verus!
