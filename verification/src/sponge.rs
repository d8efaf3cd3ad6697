//! What a digest amounts to: the sponge construction over the blocks of the
//! padded message.

use vstd::prelude::*;

use crate::constants::KECCAK_ABSORB_BYTES;
use crate::instructions::Keccackf1600Instructions;
use crate::padding::{
    blocks, blocks_keep_every_byte, missing_bytes, pad, padded_length_is_whole_blocks,
    padding_constraints, HashMode,
};
use crate::sha3_256_gadget::{
    absorbs_and_finishes, absorbs_blocks, absorbs_next_block, assigns_blocks, assigns_next_block,
    bytes_of_blocks, constrains_and_runs_sponge, digests, digests_assigned, digests_blocks,
    finishes, runs_sponge,
};

verus! {

/// The values that the cells of an assigned block hold.
pub open spec fn held<L, K: Keccackf1600Instructions<L>>(
    byte_value: spec_fn(K::AssignedByte) -> Option<u8>,
    block: K::AssignedBlock,
) -> Seq<Option<u8>> {
    K::block_bytes(block).map_values(byte_value)
}

/// Wherever an instruction of the chip succeeds, it computes the given function
/// on values: `byte_value`, `state_value` and `digest_value` read the value
/// that stands in the cells of a byte, a state and a digest, whichever cells
/// these are.
pub open spec fn computes_values<L, K: Keccackf1600Instructions<L>, S, D>(
    chip: K,
    byte_value: spec_fn(K::AssignedByte) -> Option<u8>,
    state_value: spec_fn(K::State) -> S,
    digest_value: spec_fn(K::Digest) -> D,
    initialize: spec_fn(Seq<Option<u8>>) -> S,
    absorb: spec_fn(S, Seq<Option<u8>>) -> S,
    permute: spec_fn(S) -> S,
    squeeze: spec_fn(S) -> D,
) -> bool {
    &&& forall|p: L, bytes: Seq<Option<u8>>, q: L, b: K::AssignedBlock|
        #[trigger] chip.assigns(p, bytes, q, Ok::<K::AssignedBlock, K::Error>(b)) ==> held::<L, K>(
            byte_value,
            b,
        ) == bytes
    &&& forall|p: L, b: K::AssignedBlock, q: L, s: K::State|
        #[trigger] chip.initializes(p, b, q, Ok::<K::State, K::Error>(s)) ==> state_value(s)
            == initialize(held::<L, K>(byte_value, b))
    &&& forall|p: L, s: K::State, b: K::AssignedBlock, q: L, t: K::State|
        #[trigger] chip.absorbs(p, s, Some(b), q, Ok::<K::State, K::Error>(t)) ==> state_value(t)
            == absorb(state_value(s), held::<L, K>(byte_value, b))
    &&& forall|p: L, s: K::State, q: L, t: K::State|
        #[trigger] chip.permutes(p, s, q, Ok::<K::State, K::Error>(t)) ==> state_value(t)
            == permute(state_value(s))
    &&& forall|p: L, s: K::State, q: L, d: K::Digest|
        #[trigger] chip.squeezes(p, s, q, Ok::<K::Digest, K::Error>(d)) ==> digest_value(d)
            == squeeze(state_value(s))
}

/// The sponge over a positive number of blocks: the first block initializes
/// the state, each further one is absorbed after a permutation, and the state
/// is permuted once more before it is squeezed.
pub open spec fn sponge<B, S, D>(
    initialize: spec_fn(B) -> S,
    absorb: spec_fn(S, B) -> S,
    permute: spec_fn(S) -> S,
    squeeze: spec_fn(S) -> D,
    message_blocks: Seq<B>,
) -> D {
    squeeze(permute(message_blocks.skip(1).fold_left(initialize(message_blocks.first()), absorb)))
}

/// A digest is the hash of its message. On a chip that computes values, the
/// value of a digest that succeeds is the sponge over the blocks of the padded
/// message, and the cells that it returns hold the message: nothing of the
/// padding, and nothing out of place.
pub proof fn digest_value_is_the_sponge<L, K: Keccackf1600Instructions<L>, S, D>(
    chip: K,
    byte_value: spec_fn(K::AssignedByte) -> Option<u8>,
    state_value: spec_fn(K::State) -> S,
    digest_value: spec_fn(K::Digest) -> D,
    initialize: spec_fn(Seq<Option<u8>>) -> S,
    absorb: spec_fn(S, Seq<Option<u8>>) -> S,
    permute: spec_fn(S) -> S,
    squeeze: spec_fn(S) -> D,
    mode: HashMode,
    pre: L,
    message: Seq<Option<u8>>,
    post: L,
    input: Seq<K::AssignedByte>,
    digest: K::Digest,
)
    requires
        computes_values(
            chip,
            byte_value,
            state_value,
            digest_value,
            initialize,
            absorb,
            permute,
            squeeze,
        ),
        digests(
            chip,
            mode,
            pre,
            message,
            post,
            Ok::<(Seq<K::AssignedByte>, K::Digest), K::Error>((input, digest)),
        ),
    ensures
        digest_value(digest) == sponge(
            initialize,
            absorb,
            permute,
            squeeze,
            blocks(pad(mode, message)),
        ),
        input.map_values(byte_value) == message,
{
    let padded = pad(mode, message);
    let messages = blocks(padded);
    padded_length_is_whole_blocks(mode, message);
    let (mid, assigned, start) = successful_run(chip, mode, pre, message, post, input, digest);
    assigned_values(
        chip,
        byte_value,
        state_value,
        digest_value,
        initialize,
        absorb,
        permute,
        squeeze,
        pre,
        messages,
        mid,
        assigned,
    );
    let values = assigned.map_values(|b: K::AssignedBlock| held::<L, K>(byte_value, b));
    assert(values =~= messages);

    // the cells that are returned
    let bytes = bytes_of_blocks::<L, K>(assigned);
    bytes_hold_values::<L, K>(byte_value, assigned, messages);
    assert forall|k: int| 0 <= k < message.len() implies byte_value(#[trigger] bytes[k])
        == message[k] by {
        blocks_keep_every_byte(padded, k);
        let i = k / (KECCAK_ABSORB_BYTES as int);
        let j = k % (KECCAK_ABSORB_BYTES as int);
        assert(byte_value(bytes[i * KECCAK_ABSORB_BYTES + j]) == messages[i][j]);
    }
    assert(input.map_values(byte_value) =~= message);

    // the digest
    let done = Ok::<K::Digest, K::Error>(digest);
    let (mid1, initial) = choose|mid1: L, initial: Result<K::State, K::Error>|
        #[trigger] chip.initializes(start, assigned.first(), mid1, initial) && match initial {
            Err(e) => post == mid1 && done == Err::<K::Digest, K::Error>(e),
            Ok(first) => absorbs_and_finishes(chip, mid1, first, assigned.skip(1), post, done),
        };
    let first = initial->Ok_0;
    assert(assigned.first() == assigned[0]);
    assert(state_value(first) == initialize(messages.first()));
    let (mid2, absorbed) = choose|mid2: L, absorbed: Result<K::State, K::Error>|
        #[trigger] absorbs_blocks(chip, mid1, first, assigned.skip(1), mid2, absorbed)
            && match absorbed {
            Err(e) => post == mid2 && done == Err::<K::Digest, K::Error>(e),
            Ok(state) => finishes(chip, mid2, state, post, done),
        };
    let state = absorbed->Ok_0;
    absorbed_values(
        chip,
        byte_value,
        state_value,
        digest_value,
        initialize,
        absorb,
        permute,
        squeeze,
        mid1,
        first,
        assigned.skip(1),
        mid2,
        state,
    );
    assert(assigned.skip(1).map_values(|b: K::AssignedBlock| held::<L, K>(byte_value, b))
        =~= messages.skip(1));
    let (mid3, permuted) = choose|mid3: L, permuted: Result<K::State, K::Error>|
        #[trigger] chip.permutes(mid2, state, mid3, permuted) && match permuted {
            Err(e) => post == mid3 && done == Err::<K::Digest, K::Error>(e),
            Ok(last) => chip.squeezes(mid3, last, post, done),
        };
    assert(state_value(permuted->Ok_0) == permute(state_value(state)));
}

/// The padding of a message of `len` bytes, whose blocks are assigned, was
/// constrained to the bytes with which the message was padded: that instruction
/// led from the layouter `pre` to `post` and succeeded.
pub open spec fn padding_was_constrained<L, K: Keccackf1600Instructions<L>>(
    chip: K,
    mode: HashMode,
    len: nat,
    pre: L,
    assigned: Seq<K::AssignedBlock>,
    post: L,
) -> bool {
    chip.constrains(
        pre,
        bytes_of_blocks::<L, K>(assigned).skip(len as int),
        padding_constraints(mode, missing_bytes(len)),
        post,
        Ok::<(), K::Error>(()),
    )
}

/// On every chip, a digest that succeeds has assigned every byte of the padded
/// message, has constrained the whole padding, each byte to the one with which
/// the message was padded, and returns the bytes before it.
pub proof fn successful_digest_constrains_the_padding<L, K: Keccackf1600Instructions<L>>(
    chip: K,
    mode: HashMode,
    pre: L,
    message: Seq<Option<u8>>,
    post: L,
    input: Seq<K::AssignedByte>,
    digest: K::Digest,
)
    requires
        digests(
            chip,
            mode,
            pre,
            message,
            post,
            Ok::<(Seq<K::AssignedByte>, K::Digest), K::Error>((input, digest)),
        ),
    ensures
        exists|before: L, assigned: Seq<K::AssignedBlock>, after: L| #[trigger]
            padding_was_constrained(chip, mode, message.len(), before, assigned, after)
                && bytes_of_blocks::<L, K>(assigned).len() == pad(mode, message).len() && input
                == bytes_of_blocks::<L, K>(assigned).take(message.len() as int),
{
    padded_length_is_whole_blocks(mode, message);
    let (mid, assigned, start) = successful_run(chip, mode, pre, message, post, input, digest);
    assigned_block_count(chip, pre, blocks(pad(mode, message)), mid, assigned);
}

/// One of the instructions of the chip replies with the error `e`.
pub open spec fn fails_with<L, K: Keccackf1600Instructions<L>>(chip: K, e: K::Error) -> bool {
    ||| exists|p: L, bytes: Seq<Option<u8>>, q: L| #[trigger]
        chip.assigns(p, bytes, q, Err::<K::AssignedBlock, K::Error>(e))
    ||| exists|p: L, bytes: Seq<K::AssignedByte>, constraints: Seq<(usize, u8)>, q: L| #[trigger]
        chip.constrains(p, bytes, constraints, q, Err::<(), K::Error>(e))
    ||| exists|p: L, b: K::AssignedBlock, q: L| #[trigger]
        chip.initializes(p, b, q, Err::<K::State, K::Error>(e))
    ||| exists|p: L, s: K::State, b: K::AssignedBlock, q: L| #[trigger]
        chip.absorbs(p, s, Some(b), q, Err::<K::State, K::Error>(e))
    ||| exists|p: L, s: K::State, q: L| #[trigger]
        chip.permutes(p, s, q, Err::<K::State, K::Error>(e))
    ||| exists|p: L, s: K::State, q: L| #[trigger]
        chip.squeezes(p, s, q, Err::<K::Digest, K::Error>(e))
}

/// A digest fails only where an instruction of the chip fails, and with the
/// error of that instruction. On a chip whose instructions succeed every digest
/// succeeds.
pub proof fn digest_fails_only_with_an_instruction<L, K: Keccackf1600Instructions<L>>(
    chip: K,
    mode: HashMode,
    pre: L,
    message: Seq<Option<u8>>,
    post: L,
    e: K::Error,
)
    requires
        digests(
            chip,
            mode,
            pre,
            message,
            post,
            Err::<(Seq<K::AssignedByte>, K::Digest), K::Error>(e),
        ),
    ensures
        fails_with(chip, e),
{
    let reply = Err::<(Seq<K::AssignedByte>, K::Digest), K::Error>(e);
    let failed = Err::<K::Digest, K::Error>(e);
    let len = message.len();
    let messages = blocks(pad(mode, message));
    let (mid, outcome) = choose|mid: L, outcome: Result<Seq<K::AssignedBlock>, K::Error>|
        #[trigger] digests_assigned(chip, mode, len, mid, outcome, post, reply)
            && assigns_blocks(chip, pre, messages, mid, outcome);
    if outcome is Err {
        failed_assignment(chip, pre, messages, mid, e);
    } else {
        let assigned = outcome->Ok_0;
        assert(digests_blocks(chip, mode, len, mid, assigned, post, reply));
        assert(constrains_and_runs_sponge(chip, mode, len, mid, assigned, post, failed));
        let padding_bytes = bytes_of_blocks::<L, K>(assigned).skip(len as int);
        let (start, constrained) = choose|start: L, constrained: Result<(), K::Error>|
            #[trigger] chip.constrains(
                mid,
                padding_bytes,
                padding_constraints(mode, missing_bytes(len)),
                start,
                constrained,
            ) && match constrained {
                Err(e) => post == start && failed == Err::<K::Digest, K::Error>(e),
                Ok(_) => runs_sponge(chip, start, assigned, post, failed),
            };
        if constrained is Ok {
            failed_sponge(chip, start, assigned, post, e);
        }
    }
}

proof fn failed_sponge<L, K: Keccackf1600Instructions<L>>(
    chip: K,
    pre: L,
    assigned: Seq<K::AssignedBlock>,
    post: L,
    e: K::Error,
)
    requires
        runs_sponge(chip, pre, assigned, post, Err::<K::Digest, K::Error>(e)),
    ensures
        fails_with(chip, e),
{
    let failed = Err::<K::Digest, K::Error>(e);
    let (mid1, initial) = choose|mid1: L, initial: Result<K::State, K::Error>|
        #[trigger] chip.initializes(pre, assigned.first(), mid1, initial) && match initial {
            Err(e) => post == mid1 && failed == Err::<K::Digest, K::Error>(e),
            Ok(first) => absorbs_and_finishes(chip, mid1, first, assigned.skip(1), post, failed),
        };
    if initial is Ok {
        let first = initial->Ok_0;
        let (mid2, absorbed) = choose|mid2: L, absorbed: Result<K::State, K::Error>|
            #[trigger] absorbs_blocks(chip, mid1, first, assigned.skip(1), mid2, absorbed)
                && match absorbed {
                Err(e) => post == mid2 && failed == Err::<K::Digest, K::Error>(e),
                Ok(state) => finishes(chip, mid2, state, post, failed),
            };
        if absorbed is Err {
            failed_absorption(chip, mid1, first, assigned.skip(1), mid2, e);
        }
    }
}

proof fn failed_assignment<L, K: Keccackf1600Instructions<L>>(
    chip: K,
    pre: L,
    messages: Seq<Seq<Option<u8>>>,
    post: L,
    e: K::Error,
)
    requires
        assigns_blocks(chip, pre, messages, post, Err::<Seq<K::AssignedBlock>, K::Error>(e)),
    ensures
        fails_with(chip, e),
    decreases messages.len(),
{
    let reply = Err::<Seq<K::AssignedBlock>, K::Error>(e);
    let (mid, before) = choose|mid: L, before: Result<Seq<K::AssignedBlock>, K::Error>|
        #[trigger] assigns_next_block(chip, mid, before, messages.last(), post, reply)
            && assigns_blocks(chip, pre, messages.drop_last(), mid, before);
    if before is Err {
        failed_assignment(chip, pre, messages.drop_last(), mid, e);
    }
}

proof fn failed_absorption<L, K: Keccackf1600Instructions<L>>(
    chip: K,
    pre: L,
    first: K::State,
    rest: Seq<K::AssignedBlock>,
    post: L,
    e: K::Error,
)
    requires
        absorbs_blocks(chip, pre, first, rest, post, Err::<K::State, K::Error>(e)),
    ensures
        fails_with(chip, e),
    decreases rest.len(),
{
    let reply = Err::<K::State, K::Error>(e);
    let (mid, before) = choose|mid: L, before: Result<K::State, K::Error>|
        #[trigger] absorbs_next_block(chip, mid, before, rest.last(), post, reply)
            && absorbs_blocks(chip, pre, first, rest.drop_last(), mid, before);
    if before is Err {
        failed_absorption(chip, pre, first, rest.drop_last(), mid, e);
    }
}

/// The parts of a run that succeeds: the layouter and the blocks after the
/// assignment, and the layouter after the padding was constrained.
pub(crate) proof fn successful_run<L, K: Keccackf1600Instructions<L>>(
    chip: K,
    mode: HashMode,
    pre: L,
    message: Seq<Option<u8>>,
    post: L,
    input: Seq<K::AssignedByte>,
    digest: K::Digest,
) -> (parts: (L, Seq<K::AssignedBlock>, L))
    requires
        digests(
            chip,
            mode,
            pre,
            message,
            post,
            Ok::<(Seq<K::AssignedByte>, K::Digest), K::Error>((input, digest)),
        ),
    ensures
        assigns_blocks(
            chip,
            pre,
            blocks(pad(mode, message)),
            parts.0,
            Ok::<Seq<K::AssignedBlock>, K::Error>(parts.1),
        ),
        padding_was_constrained(chip, mode, message.len(), parts.0, parts.1, parts.2),
        runs_sponge(chip, parts.2, parts.1, post, Ok::<K::Digest, K::Error>(digest)),
        input == bytes_of_blocks::<L, K>(parts.1).take(message.len() as int),
        bytes_of_blocks::<L, K>(parts.1).len() == parts.1.len() * KECCAK_ABSORB_BYTES,
        forall|i: int|
            0 <= i < parts.1.len() ==> K::block_bytes(#[trigger] parts.1[i]).len()
                == KECCAK_ABSORB_BYTES,
{
    let reply = Ok::<(Seq<K::AssignedByte>, K::Digest), K::Error>((input, digest));
    let len = message.len();
    let messages = blocks(pad(mode, message));
    let (mid, outcome) = choose|mid: L, outcome: Result<Seq<K::AssignedBlock>, K::Error>|
        #[trigger] digests_assigned(chip, mode, len, mid, outcome, post, reply)
            && assigns_blocks(chip, pre, messages, mid, outcome);
    let assigned = outcome->Ok_0;
    assert(digests_blocks(chip, mode, len, mid, assigned, post, reply));
    let run = choose|run: Result<K::Digest, K::Error>|
        #[trigger] constrains_and_runs_sponge(chip, mode, len, mid, assigned, post, run)
            && reply == match run {
            Err(e) => Err::<(Seq<K::AssignedByte>, K::Digest), K::Error>(e),
            Ok(d) => Ok((bytes_of_blocks::<L, K>(assigned).take(len as int), d)),
        };
    let padding_bytes = bytes_of_blocks::<L, K>(assigned).skip(len as int);
    let (after, constrained) = choose|after: L, constrained: Result<(), K::Error>|
        #[trigger] chip.constrains(
            mid,
            padding_bytes,
            padding_constraints(mode, missing_bytes(len)),
            after,
            constrained,
        ) && match constrained {
            Err(e) => post == after && run == Err::<K::Digest, K::Error>(e),
            Ok(_) => runs_sponge(chip, after, assigned, post, run),
        };
    assert(run is Ok);
    assert(constrained is Ok);
    assert(constrained->Ok_0 == ());
    (mid, assigned, after)
}

pub(crate) proof fn assigned_block_count<L, K: Keccackf1600Instructions<L>>(
    chip: K,
    pre: L,
    messages: Seq<Seq<Option<u8>>>,
    post: L,
    assigned: Seq<K::AssignedBlock>,
)
    requires
        assigns_blocks(
            chip,
            pre,
            messages,
            post,
            Ok::<Seq<K::AssignedBlock>, K::Error>(assigned),
        ),
    ensures
        assigned.len() == messages.len(),
    decreases messages.len(),
{
    if messages.len() != 0 {
        let reply = Ok::<Seq<K::AssignedBlock>, K::Error>(assigned);
        let (mid, before) = choose|mid: L, before: Result<Seq<K::AssignedBlock>, K::Error>|
            #[trigger] assigns_next_block(chip, mid, before, messages.last(), post, reply)
                && assigns_blocks(chip, pre, messages.drop_last(), mid, before);
        assigned_block_count(chip, pre, messages.drop_last(), mid, before->Ok_0);
    }
}

proof fn assigned_values<L, K: Keccackf1600Instructions<L>, S, D>(
    chip: K,
    byte_value: spec_fn(K::AssignedByte) -> Option<u8>,
    state_value: spec_fn(K::State) -> S,
    digest_value: spec_fn(K::Digest) -> D,
    initialize: spec_fn(Seq<Option<u8>>) -> S,
    absorb: spec_fn(S, Seq<Option<u8>>) -> S,
    permute: spec_fn(S) -> S,
    squeeze: spec_fn(S) -> D,
    pre: L,
    messages: Seq<Seq<Option<u8>>>,
    post: L,
    assigned: Seq<K::AssignedBlock>,
)
    requires
        computes_values(
            chip,
            byte_value,
            state_value,
            digest_value,
            initialize,
            absorb,
            permute,
            squeeze,
        ),
        assigns_blocks(
            chip,
            pre,
            messages,
            post,
            Ok::<Seq<K::AssignedBlock>, K::Error>(assigned),
        ),
    ensures
        assigned.len() == messages.len(),
        forall|i: int|
            0 <= i < messages.len() ==> held::<L, K>(byte_value, #[trigger] assigned[i])
                == messages[i],
    decreases messages.len(),
{
    if messages.len() != 0 {
        let reply = Ok::<Seq<K::AssignedBlock>, K::Error>(assigned);
        let (mid, before) = choose|mid: L, before: Result<Seq<K::AssignedBlock>, K::Error>|
            #[trigger] assigns_next_block(chip, mid, before, messages.last(), post, reply)
                && assigns_blocks(chip, pre, messages.drop_last(), mid, before);
        let done = before->Ok_0;
        assigned_values(
            chip,
            byte_value,
            state_value,
            digest_value,
            initialize,
            absorb,
            permute,
            squeeze,
            pre,
            messages.drop_last(),
            mid,
            done,
        );
        let one = choose|one: Result<K::AssignedBlock, K::Error>|
            #[trigger] chip.assigns(mid, messages.last(), post, one) && reply == match one {
                Err(e) => Err::<Seq<K::AssignedBlock>, K::Error>(e),
                Ok(block) => Ok(done.push(block)),
            };
        let block = one->Ok_0;
        assert(assigned == done.push(block));
        assert(held::<L, K>(byte_value, block) == messages.last());
        assert forall|i: int| 0 <= i < messages.len() implies held::<L, K>(
            byte_value,
            #[trigger] assigned[i],
        ) == messages[i] by {
            if i < done.len() {
                assert(assigned[i] == done[i]);
                assert(messages.drop_last()[i] == messages[i]);
            }
        }
    }
}

proof fn absorbed_values<L, K: Keccackf1600Instructions<L>, S, D>(
    chip: K,
    byte_value: spec_fn(K::AssignedByte) -> Option<u8>,
    state_value: spec_fn(K::State) -> S,
    digest_value: spec_fn(K::Digest) -> D,
    initialize: spec_fn(Seq<Option<u8>>) -> S,
    absorb: spec_fn(S, Seq<Option<u8>>) -> S,
    permute: spec_fn(S) -> S,
    squeeze: spec_fn(S) -> D,
    pre: L,
    first: K::State,
    rest: Seq<K::AssignedBlock>,
    post: L,
    state: K::State,
)
    requires
        computes_values(
            chip,
            byte_value,
            state_value,
            digest_value,
            initialize,
            absorb,
            permute,
            squeeze,
        ),
        absorbs_blocks(chip, pre, first, rest, post, Ok::<K::State, K::Error>(state)),
    ensures
        state_value(state) == rest.map_values(
            |b: K::AssignedBlock| held::<L, K>(byte_value, b),
        ).fold_left(state_value(first), absorb),
    decreases rest.len(),
{
    let values = rest.map_values(|b: K::AssignedBlock| held::<L, K>(byte_value, b));
    if rest.len() != 0 {
        let reply = Ok::<K::State, K::Error>(state);
        let (mid, before) = choose|mid: L, before: Result<K::State, K::Error>|
            #[trigger] absorbs_next_block(chip, mid, before, rest.last(), post, reply)
                && absorbs_blocks(chip, pre, first, rest.drop_last(), mid, before);
        absorbed_values(
            chip,
            byte_value,
            state_value,
            digest_value,
            initialize,
            absorb,
            permute,
            squeeze,
            pre,
            first,
            rest.drop_last(),
            mid,
            before->Ok_0,
        );
        assert(values.drop_last() =~= rest.drop_last().map_values(
            |b: K::AssignedBlock| held::<L, K>(byte_value, b),
        ));
        assert(values.last() == held::<L, K>(byte_value, rest.last()));
    }
}

proof fn bytes_hold_values<L, K: Keccackf1600Instructions<L>>(
    byte_value: spec_fn(K::AssignedByte) -> Option<u8>,
    assigned: Seq<K::AssignedBlock>,
    messages: Seq<Seq<Option<u8>>>,
)
    requires
        assigned.len() == messages.len(),
        forall|i: int|
            0 <= i < messages.len() ==> held::<L, K>(byte_value, #[trigger] assigned[i])
                == messages[i],
        forall|i: int|
            0 <= i < messages.len() ==> (#[trigger] messages[i]).len() == KECCAK_ABSORB_BYTES,
    ensures
        bytes_of_blocks::<L, K>(assigned).len() == messages.len() * KECCAK_ABSORB_BYTES,
        forall|i: int, j: int|
            0 <= i < messages.len() && 0 <= j < KECCAK_ABSORB_BYTES ==> byte_value(
                bytes_of_blocks::<L, K>(assigned)[i * KECCAK_ABSORB_BYTES + j],
            ) == #[trigger] messages[i][j],
    decreases messages.len(),
{
    if messages.len() != 0 {
        let before = messages.drop_last();
        let done = assigned.drop_last();
        assert forall|i: int| 0 <= i < before.len() implies held::<L, K>(
            byte_value,
            #[trigger] done[i],
        ) == before[i] by {
            assert(done[i] == assigned[i]);
        }
        bytes_hold_values::<L, K>(byte_value, done, before);
        let n = before.len() as int;
        let last = K::block_bytes(assigned[n]);
        assert(held::<L, K>(byte_value, assigned[n]) == messages[n]);
        assert(last.len() == KECCAK_ABSORB_BYTES);
        assert forall|i: int, j: int|
            0 <= i < messages.len() && 0 <= j < KECCAK_ABSORB_BYTES implies byte_value(
            bytes_of_blocks::<L, K>(assigned)[i * KECCAK_ABSORB_BYTES + j],
        ) == #[trigger] messages[i][j] by {
            if i < n {
                assert(before[i][j] == messages[i][j]);
                assert(i * KECCAK_ABSORB_BYTES + j < n * KECCAK_ABSORB_BYTES);
            } else {
                assert(held::<L, K>(byte_value, assigned[n])[j] == byte_value(last[j]));
            }
        }
    }
}

} // verus!
