//! The instructions that a digest issues, one by one.

use vstd::prelude::*;

use crate::instructions::Keccackf1600Instructions;
use crate::padding::{
    blocks, blocks_are_consecutive, constraints_follow_pad10star1, missing_bytes,
    missing_bytes_complete_the_block, pad, padded_message_follows_pad10star1, padding_constraints,
    HashMode,
};
use crate::sha3_256_gadget::{
    absorbs_and_finishes, absorbs_blocks, absorbs_next_block, assigns_blocks, assigns_next_block,
    bytes_of_blocks, constrains_and_runs_sponge, digests, digests_assigned, digests_blocks,
    finishes, runs_sponge,
};
use crate::sponge::{assigned_block_count, padding_was_constrained, successful_run};

verus! {

/// How many blocks of 136 bytes a padded message of `len` bytes fills.
pub open spec fn block_count(len: nat) -> int {
    len as int / 136 + 1
}

/// Byte `k` of a padded message: that of the message, or behind it `0x06` or
/// `0x01` at the first place, `0x80` at the last of the last block, both at once
/// where these are one place, and zero between them.
pub open spec fn padded_byte(mode: HashMode, message: Seq<Option<u8>>, k: int) -> Option<u8> {
    if k < message.len() {
        message[k]
    } else {
        Some(
            (if k == message.len() {
                if mode == HashMode::Sha3_256 {
                    0x06u8
                } else {
                    0x01u8
                }
            } else {
                0x00u8
            }) | (if k == 136 * block_count(message.len()) - 1 {
                0x80u8
            } else {
                0x00u8
            }),
        )
    }
}

/// The bytes of block `i` of a padded message.
pub open spec fn padded_block(mode: HashMode, message: Seq<Option<u8>>, i: int) -> Seq<Option<u8>> {
    Seq::new(136, |j: int| padded_byte(mode, message, 136 * i + j))
}

/// The cell of byte `k` of a padded message whose blocks are assigned.
pub open spec fn cell_of<L, K: Keccackf1600Instructions<L>>(
    assigned: Seq<K::AssignedBlock>,
    k: int,
) -> K::AssignedByte {
    K::block_bytes(assigned[k / 136])[k % 136]
}

/// How many bytes of padding follow a message of `len` bytes.
pub open spec fn padding_len(len: nat) -> nat {
    (136 * block_count(len) - len) as nat
}

/// The cells of the padding, in order.
pub open spec fn padding_cells<L, K: Keccackf1600Instructions<L>>(
    len: nat,
    assigned: Seq<K::AssignedBlock>,
) -> Seq<K::AssignedByte> {
    Seq::new(padding_len(len), |i: int| cell_of::<L, K>(assigned, len + i))
}

/// Each byte of the padding of `message`, from the last to the first, with its
/// value.
pub open spec fn padding_values(mode: HashMode, message: Seq<Option<u8>>) -> Seq<(usize, u8)> {
    let missing = padding_len(message.len());
    Seq::new(
        missing,
        |k: int|
            (
                (missing - 1 - k) as usize,
                padded_byte(mode, message, message.len() + missing - 1 - k)->0,
            ),
    )
}

/// Instruction `k` of a digest of `message`, before the last, leads with success
/// from the layouter `p` to `q`. With `n` blocks these are: `n` times to assign a
/// block; to constrain the padding; to initialize the state with the first
/// block; `n - 1` times to permute and absorb the next block; to permute.
pub open spec fn step_succeeds<L, K: Keccackf1600Instructions<L>>(
    chip: K,
    mode: HashMode,
    message: Seq<Option<u8>>,
    assigned: Seq<K::AssignedBlock>,
    states: Seq<K::State>,
    k: int,
    p: L,
    q: L,
) -> bool {
    let n = block_count(message.len());
    if k < n {
        chip.assigns(
            p,
            padded_block(mode, message, k),
            q,
            Ok::<K::AssignedBlock, K::Error>(assigned[k]),
        )
    } else if k == n {
        chip.constrains(
            p,
            padding_cells::<L, K>(message.len(), assigned),
            padding_values(mode, message),
            q,
            Ok::<(), K::Error>(()),
        )
    } else if k == n + 1 {
        chip.initializes(p, assigned[0], q, Ok::<K::State, K::Error>(states[0]))
    } else if k <= 2 * n {
        chip.absorbs(
            p,
            states[k - n - 2],
            Some(assigned[k - n - 1]),
            q,
            Ok::<K::State, K::Error>(states[k - n - 1]),
        )
    } else {
        chip.permutes(p, states[n - 1], q, Ok::<K::State, K::Error>(states[n]))
    }
}

/// Instruction `k` of a digest of `message` fails with `e` and leads from the
/// layouter `p` to `q`. After the instructions of `step_succeeds` comes the last
/// one: to squeeze.
pub open spec fn step_fails<L, K: Keccackf1600Instructions<L>>(
    chip: K,
    mode: HashMode,
    message: Seq<Option<u8>>,
    assigned: Seq<K::AssignedBlock>,
    states: Seq<K::State>,
    k: int,
    p: L,
    q: L,
    e: K::Error,
) -> bool {
    let n = block_count(message.len());
    if k < n {
        chip.assigns(p, padded_block(mode, message, k), q, Err::<K::AssignedBlock, K::Error>(e))
    } else if k == n {
        chip.constrains(
            p,
            padding_cells::<L, K>(message.len(), assigned),
            padding_values(mode, message),
            q,
            Err::<(), K::Error>(e),
        )
    } else if k == n + 1 {
        chip.initializes(p, assigned[0], q, Err::<K::State, K::Error>(e))
    } else if k <= 2 * n {
        chip.absorbs(
            p,
            states[k - n - 2],
            Some(assigned[k - n - 1]),
            q,
            Err::<K::State, K::Error>(e),
        )
    } else if k == 2 * n + 1 {
        chip.permutes(p, states[n - 1], q, Err::<K::State, K::Error>(e))
    } else {
        chip.squeezes(p, states[n], q, Err::<K::Digest, K::Error>(e))
    }
}

/// The first instructions of a digest, one fewer than the layouters, succeeded,
/// each leading from one layouter to the next.
pub open spec fn ran<L, K: Keccackf1600Instructions<L>>(
    chip: K,
    mode: HashMode,
    message: Seq<Option<u8>>,
    assigned: Seq<K::AssignedBlock>,
    states: Seq<K::State>,
    layouters: Seq<L>,
) -> bool {
    forall|k: int|
        0 <= k < layouters.len() - 1 ==> #[trigger] step_succeeds(
            chip,
            mode,
            message,
            assigned,
            states,
            k,
            layouters[k],
            layouters[k + 1],
        )
}

proof fn padding_is_as_described(mode: HashMode, message: Seq<Option<u8>>)
    ensures
        pad(mode, message).len() == 136 * block_count(message.len()),
        blocks(pad(mode, message)).len() == block_count(message.len()),
        forall|i: int|
            0 <= i < block_count(message.len()) ==> #[trigger] blocks(pad(mode, message))[i]
                == padded_block(mode, message, i),
        missing_bytes(message.len()) == padding_len(message.len()),
        padding_constraints(mode, missing_bytes(message.len())) == padding_values(mode, message),
{
    let padded = pad(mode, message);
    let len = message.len();
    padded_message_follows_pad10star1(mode, message);
    missing_bytes_complete_the_block(mode, message);
    assert(padded.len() == 136 * block_count(len));
    blocks_are_consecutive(padded);
    assert forall|k: int| 0 <= k < padded.len() implies #[trigger] padded[k] == padded_byte(
        mode,
        message,
        k,
    ) by {
        if k < len {
            assert(padded.take(len as int)[k] == padded[k]);
        }
    }
    assert forall|i: int| 0 <= i < block_count(len) implies #[trigger] blocks(padded)[i]
        == padded_block(mode, message, i) by {
        let block = padded_block(mode, message, i);
        assert forall|j: int| 0 <= j < 136 implies blocks(padded)[i][j] == #[trigger] block[j] by {
            assert(padded[136 * i + j] == padded_byte(mode, message, 136 * i + j));
        }
        assert(blocks(padded)[i] =~= block);
    }
    let missing = missing_bytes(len);
    constraints_follow_pad10star1(mode, missing as usize);
    assert(padding_constraints(mode, missing) =~= padding_values(mode, message));
}

proof fn cells_are_as_described<L, K: Keccackf1600Instructions<L>>(assigned: Seq<K::AssignedBlock>)
    requires
        forall|i: int|
            0 <= i < assigned.len() ==> K::block_bytes(#[trigger] assigned[i]).len() == 136,
    ensures
        bytes_of_blocks::<L, K>(assigned).len() == 136 * assigned.len(),
        forall|k: int|
            0 <= k < 136 * assigned.len() ==> #[trigger] bytes_of_blocks::<L, K>(assigned)[k]
                == cell_of::<L, K>(assigned, k),
    decreases assigned.len(),
{
    if assigned.len() != 0 {
        let before = assigned.drop_last();
        let n = before.len() as int;
        assert forall|i: int| 0 <= i < before.len() implies K::block_bytes(
            #[trigger] before[i],
        ).len() == 136 by {
            assert(before[i] == assigned[i]);
        }
        cells_are_as_described::<L, K>(before);
        let last = K::block_bytes(assigned[n]);
        assert(last.len() == 136);
        assert forall|k: int| 0 <= k < 136 * assigned.len() implies #[trigger] bytes_of_blocks::<
            L,
            K,
        >(assigned)[k] == cell_of::<L, K>(assigned, k) by {
            if k < 136 * n {
                assert(bytes_of_blocks::<L, K>(before)[k] == cell_of::<L, K>(before, k));
                assert(before[k / 136] == assigned[k / 136]);
            } else {
                assert(k / 136 == n);
                assert(k % 136 == k - 136 * n);
            }
        }
    }
}

proof fn assignment_steps<L, K: Keccackf1600Instructions<L>>(
    chip: K,
    pre: L,
    messages: Seq<Seq<Option<u8>>>,
    post: L,
    assigned: Seq<K::AssignedBlock>,
) -> (layouters: Seq<L>)
    requires
        assigns_blocks(
            chip,
            pre,
            messages,
            post,
            Ok::<Seq<K::AssignedBlock>, K::Error>(assigned),
        ),
    ensures
        assigned.len() == messages.len(),
        layouters.len() == messages.len() + 1,
        layouters[0] == pre,
        layouters[messages.len() as int] == post,
        forall|i: int|
            0 <= i < messages.len() ==> chip.assigns(
                layouters[i],
                #[trigger] messages[i],
                layouters[i + 1],
                Ok::<K::AssignedBlock, K::Error>(assigned[i]),
            ),
    decreases messages.len(),
{
    if messages.len() == 0 {
        seq![pre]
    } else {
        let reply = Ok::<Seq<K::AssignedBlock>, K::Error>(assigned);
        let (mid, before) = choose|mid: L, before: Result<Seq<K::AssignedBlock>, K::Error>|
            #[trigger] assigns_next_block(chip, mid, before, messages.last(), post, reply)
                && assigns_blocks(chip, pre, messages.drop_last(), mid, before);
        let done = before->Ok_0;
        let earlier = assignment_steps(chip, pre, messages.drop_last(), mid, done);
        let one = choose|one: Result<K::AssignedBlock, K::Error>|
            #[trigger] chip.assigns(mid, messages.last(), post, one) && reply == match one {
                Err(e) => Err::<Seq<K::AssignedBlock>, K::Error>(e),
                Ok(block) => Ok(done.push(block)),
            };
        assert(assigned == done.push(one->Ok_0));
        let layouters = earlier.push(post);
        assert forall|i: int| 0 <= i < messages.len() implies chip.assigns(
            layouters[i],
            #[trigger] messages[i],
            layouters[i + 1],
            Ok::<K::AssignedBlock, K::Error>(assigned[i]),
        ) by {
            if i < done.len() {
                assert(messages.drop_last()[i] == messages[i]);
                assert(assigned[i] == done[i]);
                assert(layouters[i] == earlier[i]);
                assert(layouters[i + 1] == earlier[i + 1]);
            } else {
                assert(messages[i] == messages.last());
                assert(layouters[i] == mid);
            }
        }
        layouters
    }
}

proof fn failed_assignment_steps<L, K: Keccackf1600Instructions<L>>(
    chip: K,
    pre: L,
    messages: Seq<Seq<Option<u8>>>,
    post: L,
    e: K::Error,
) -> (run: (Seq<L>, Seq<K::AssignedBlock>))
    requires
        assigns_blocks(chip, pre, messages, post, Err::<Seq<K::AssignedBlock>, K::Error>(e)),
    ensures
        1 <= run.0.len() <= messages.len(),
        run.0[0] == pre,
        forall|i: int|
            0 <= i < run.0.len() - 1 ==> chip.assigns(
                run.0[i],
                #[trigger] messages[i],
                run.0[i + 1],
                Ok::<K::AssignedBlock, K::Error>(run.1[i]),
            ),
        chip.assigns(
            run.0[run.0.len() - 1],
            messages[run.0.len() - 1],
            post,
            Err::<K::AssignedBlock, K::Error>(e),
        ),
    decreases messages.len(),
{
    let reply = Err::<Seq<K::AssignedBlock>, K::Error>(e);
    let earlier = messages.drop_last();
    let (mid, before) = choose|mid: L, before: Result<Seq<K::AssignedBlock>, K::Error>|
        #[trigger] assigns_next_block(chip, mid, before, messages.last(), post, reply)
            && assigns_blocks(chip, pre, earlier, mid, before);
    match before {
        Err(_) => {
            let run = failed_assignment_steps(chip, pre, earlier, mid, e);
            assert forall|i: int| 0 <= i < run.0.len() - 1 implies chip.assigns(
                run.0[i],
                #[trigger] messages[i],
                run.0[i + 1],
                Ok::<K::AssignedBlock, K::Error>(run.1[i]),
            ) by {
                assert(earlier[i] == messages[i]);
            }
            run
        },
        Ok(done) => {
            let layouters = assignment_steps(chip, pre, earlier, mid, done);
            assert forall|i: int| 0 <= i < layouters.len() - 1 implies chip.assigns(
                layouters[i],
                #[trigger] messages[i],
                layouters[i + 1],
                Ok::<K::AssignedBlock, K::Error>(done[i]),
            ) by {
                assert(earlier[i] == messages[i]);
            }
            assert(chip.assigns(
                mid,
                messages.last(),
                post,
                Err::<K::AssignedBlock, K::Error>(e),
            ));
            (layouters, done)
        },
    }
}

proof fn absorption_steps<L, K: Keccackf1600Instructions<L>>(
    chip: K,
    pre: L,
    first: K::State,
    rest: Seq<K::AssignedBlock>,
    post: L,
    state: K::State,
) -> (run: (Seq<L>, Seq<K::State>))
    requires
        absorbs_blocks(chip, pre, first, rest, post, Ok::<K::State, K::Error>(state)),
    ensures
        run.0.len() == rest.len() + 1,
        run.1.len() == rest.len() + 1,
        run.0[0] == pre,
        run.1[0] == first,
        run.0[rest.len() as int] == post,
        run.1[rest.len() as int] == state,
        forall|i: int|
            0 <= i < rest.len() ==> chip.absorbs(
                run.0[i],
                run.1[i],
                Some(#[trigger] rest[i]),
                run.0[i + 1],
                Ok::<K::State, K::Error>(run.1[i + 1]),
            ),
    decreases rest.len(),
{
    if rest.len() == 0 {
        (seq![pre], seq![first])
    } else {
        let reply = Ok::<K::State, K::Error>(state);
        let (mid, before) = choose|mid: L, before: Result<K::State, K::Error>|
            #[trigger] absorbs_next_block(chip, mid, before, rest.last(), post, reply)
                && absorbs_blocks(chip, pre, first, rest.drop_last(), mid, before);
        let earlier = absorption_steps(chip, pre, first, rest.drop_last(), mid, before->Ok_0);
        let run = (earlier.0.push(post), earlier.1.push(state));
        assert forall|i: int| 0 <= i < rest.len() implies chip.absorbs(
            run.0[i],
            run.1[i],
            Some(#[trigger] rest[i]),
            run.0[i + 1],
            Ok::<K::State, K::Error>(run.1[i + 1]),
        ) by {
            if i < rest.len() - 1 {
                assert(rest.drop_last()[i] == rest[i]);
            } else {
                assert(rest[i] == rest.last());
            }
        }
        run
    }
}

proof fn failed_absorption_steps<L, K: Keccackf1600Instructions<L>>(
    chip: K,
    pre: L,
    first: K::State,
    rest: Seq<K::AssignedBlock>,
    post: L,
    e: K::Error,
) -> (run: (Seq<L>, Seq<K::State>))
    requires
        absorbs_blocks(chip, pre, first, rest, post, Err::<K::State, K::Error>(e)),
    ensures
        1 <= run.0.len() <= rest.len(),
        run.1.len() == run.0.len(),
        run.0[0] == pre,
        run.1[0] == first,
        forall|i: int|
            0 <= i < run.0.len() - 1 ==> chip.absorbs(
                run.0[i],
                run.1[i],
                Some(#[trigger] rest[i]),
                run.0[i + 1],
                Ok::<K::State, K::Error>(run.1[i + 1]),
            ),
        chip.absorbs(
            run.0[run.0.len() - 1],
            run.1[run.0.len() - 1],
            Some(rest[run.0.len() - 1]),
            post,
            Err::<K::State, K::Error>(e),
        ),
    decreases rest.len(),
{
    let reply = Err::<K::State, K::Error>(e);
    let earlier = rest.drop_last();
    let (mid, before) = choose|mid: L, before: Result<K::State, K::Error>|
        #[trigger] absorbs_next_block(chip, mid, before, rest.last(), post, reply)
            && absorbs_blocks(chip, pre, first, earlier, mid, before);
    let run = match before {
        Err(_) => failed_absorption_steps(chip, pre, first, earlier, mid, e),
        Ok(state) => absorption_steps(chip, pre, first, earlier, mid, state),
    };
    assert forall|i: int| 0 <= i < run.0.len() - 1 implies chip.absorbs(
        run.0[i],
        run.1[i],
        Some(#[trigger] rest[i]),
        run.0[i + 1],
        Ok::<K::State, K::Error>(run.1[i + 1]),
    ) by {
        assert(earlier[i] == rest[i]);
    }
    run
}

proof fn assigned_run<L, K: Keccackf1600Instructions<L>>(
    chip: K,
    mode: HashMode,
    message: Seq<Option<u8>>,
    pre: L,
    mid: L,
    assigned: Seq<K::AssignedBlock>,
    states: Seq<K::State>,
) -> (layouters: Seq<L>)
    requires
        assigns_blocks(
            chip,
            pre,
            blocks(pad(mode, message)),
            mid,
            Ok::<Seq<K::AssignedBlock>, K::Error>(assigned),
        ),
    ensures
        assigned.len() == block_count(message.len()),
        layouters.len() == block_count(message.len()) + 1,
        layouters[0] == pre,
        layouters.last() == mid,
        ran(chip, mode, message, assigned, states, layouters),
{
    let messages = blocks(pad(mode, message));
    padding_is_as_described(mode, message);
    let layouters = assignment_steps(chip, pre, messages, mid, assigned);
    assert forall|k: int| 0 <= k < layouters.len() - 1 implies #[trigger] step_succeeds(
        chip,
        mode,
        message,
        assigned,
        states,
        k,
        layouters[k],
        layouters[k + 1],
    ) by {
        assert(messages[k] == padded_block(mode, message, k));
    }
    layouters
}

proof fn next_step<L, K: Keccackf1600Instructions<L>>(
    chip: K,
    mode: HashMode,
    message: Seq<Option<u8>>,
    assigned: Seq<K::AssignedBlock>,
    states: Seq<K::State>,
    layouters: Seq<L>,
    next: L,
)
    requires
        layouters.len() >= 1,
        ran(chip, mode, message, assigned, states, layouters),
        step_succeeds(
            chip,
            mode,
            message,
            assigned,
            states,
            layouters.len() - 1,
            layouters.last(),
            next,
        ),
    ensures
        ran(chip, mode, message, assigned, states, layouters.push(next)),
{
    let all = layouters.push(next);
    assert forall|k: int| 0 <= k < all.len() - 1 implies #[trigger] step_succeeds(
        chip,
        mode,
        message,
        assigned,
        states,
        k,
        all[k],
        all[k + 1],
    ) by {
        if k < layouters.len() - 1 {
            assert(step_succeeds(
                chip,
                mode,
                message,
                assigned,
                states,
                k,
                layouters[k],
                layouters[k + 1],
            ));
        }
    }
}

proof fn absorbed_run<L, K: Keccackf1600Instructions<L>>(
    chip: K,
    mode: HashMode,
    message: Seq<Option<u8>>,
    assigned: Seq<K::AssignedBlock>,
    states: Seq<K::State>,
    layouters: Seq<L>,
    more: Seq<L>,
)
    requires
        layouters.len() == block_count(message.len()) + 3,
        1 <= more.len() <= block_count(message.len()),
        more[0] == layouters.last(),
        ran(chip, mode, message, assigned, states, layouters),
        forall|i: int|
            0 <= i < more.len() - 1 ==> chip.absorbs(
                #[trigger] more[i],
                states[i],
                Some(assigned[i + 1]),
                more[i + 1],
                Ok::<K::State, K::Error>(states[i + 1]),
            ),
    ensures
        ran(chip, mode, message, assigned, states, layouters + more.skip(1)),
    decreases more.len(),
{
    if more.len() == 1 {
        assert(layouters + more.skip(1) =~= layouters);
    } else {
        let fewer = more.drop_last();
        assert forall|i: int| 0 <= i < fewer.len() - 1 implies chip.absorbs(
            #[trigger] fewer[i],
            states[i],
            Some(assigned[i + 1]),
            fewer[i + 1],
            Ok::<K::State, K::Error>(states[i + 1]),
        ) by {
            assert(fewer[i] == more[i]);
        }
        absorbed_run(chip, mode, message, assigned, states, layouters, fewer);
        let so_far = layouters + fewer.skip(1);
        let i = more.len() - 2;
        assert(more[i] == so_far.last());
        assert(so_far.len() - 1 == block_count(message.len()) + 2 + i);
        next_step(chip, mode, message, assigned, states, so_far, more.last());
        assert(so_far.push(more.last()) =~= layouters + more.skip(1));
    }
}

/// A digest that succeeds has issued these instructions, in this order, each on
/// the layouter that the one before it left, and each succeeded: with `n` the
/// number of blocks of the padded message, `n` times to assign the next block of
/// it; to constrain every byte of the padding to its value; to initialize the
/// state with the first block; for each further block to permute the state and
/// absorb it; to permute; to squeeze. It returns the cells of the message.
pub proof fn successful_digest_issues_every_instruction<L, K: Keccackf1600Instructions<L>>(
    chip: K,
    mode: HashMode,
    pre: L,
    message: Seq<Option<u8>>,
    post: L,
    input: Seq<K::AssignedByte>,
    digest: K::Digest,
)
    requires
        digests(
            chip,
            mode,
            pre,
            message,
            post,
            Ok::<(Seq<K::AssignedByte>, K::Digest), K::Error>((input, digest)),
        ),
    ensures
        exists|assigned: Seq<K::AssignedBlock>, states: Seq<K::State>, layouters: Seq<L>|
            {
                let n = block_count(message.len());
                &&& #[trigger] ran(chip, mode, message, assigned, states, layouters)
                &&& assigned.len() == n
                &&& states.len() == n + 1
                &&& layouters.len() == 2 * n + 3
                &&& layouters[0] == pre
                &&& chip.squeezes(
                    layouters[2 * n + 2],
                    states[n],
                    post,
                    Ok::<K::Digest, K::Error>(digest),
                )
                &&& input == Seq::new(message.len(), |k: int| cell_of::<L, K>(assigned, k))
            },
{
    let len = message.len();
    let n = block_count(len);
    let done = Ok::<K::Digest, K::Error>(digest);
    padding_is_as_described(mode, message);
    let (mid, assigned, start) = successful_run(chip, mode, pre, message, post, input, digest);
    assigned_block_count(chip, pre, blocks(pad(mode, message)), mid, assigned);
    cells_are_as_described::<L, K>(assigned);
    let (mid1, initial) = choose|mid1: L, initial: Result<K::State, K::Error>|
        #[trigger] chip.initializes(start, assigned.first(), mid1, initial) && match initial {
            Err(e) => post == mid1 && done == Err::<K::Digest, K::Error>(e),
            Ok(first) => absorbs_and_finishes(chip, mid1, first, assigned.skip(1), post, done),
        };
    let first = initial->Ok_0;
    assert(assigned.first() == assigned[0]);
    let (mid2, absorbed) = choose|mid2: L, absorbed: Result<K::State, K::Error>|
        #[trigger] absorbs_blocks(chip, mid1, first, assigned.skip(1), mid2, absorbed)
            && match absorbed {
            Err(e) => post == mid2 && done == Err::<K::Digest, K::Error>(e),
            Ok(state) => finishes(chip, mid2, state, post, done),
        };
    let state = absorbed->Ok_0;
    let (mid3, permuted) = choose|mid3: L, permuted: Result<K::State, K::Error>|
        #[trigger] chip.permutes(mid2, state, mid3, permuted) && match permuted {
            Err(e) => post == mid3 && done == Err::<K::Digest, K::Error>(e),
            Ok(last) => chip.squeezes(mid3, last, post, done),
        };
    let (more, absorbed_states) = absorption_steps(
        chip,
        mid1,
        first,
        assigned.skip(1),
        mid2,
        state,
    );
    let states = absorbed_states.push(permuted->Ok_0);
    let layouters0 = assigned_run(chip, mode, message, pre, mid, assigned, states);
    let layouters1 = constrained_run(chip, mode, message, assigned, states, layouters0, start);
    next_step(chip, mode, message, assigned, states, layouters1, mid1);
    let layouters2 = layouters1.push(mid1);
    assert forall|i: int| 0 <= i < more.len() - 1 implies chip.absorbs(
        #[trigger] more[i],
        states[i],
        Some(assigned[i + 1]),
        more[i + 1],
        Ok::<K::State, K::Error>(states[i + 1]),
    ) by {
        assert(assigned.skip(1)[i] == assigned[i + 1]);
    }
    absorbed_run(chip, mode, message, assigned, states, layouters2, more);
    let layouters3 = layouters2 + more.skip(1);
    assert(layouters3.last() == mid2);
    assert(layouters3.len() == 2 * n + 2);
    next_step(chip, mode, message, assigned, states, layouters3, mid3);
    let layouters = layouters3.push(mid3);
    assert(layouters[2 * n + 2] == mid3);
    assert(input =~= Seq::new(message.len(), |k: int| cell_of::<L, K>(assigned, k))) by {
        let bytes = bytes_of_blocks::<L, K>(assigned);
        assert forall|k: int| 0 <= k < len implies #[trigger] input[k] == cell_of::<L, K>(
            assigned,
            k,
        ) by {
            assert(input[k] == bytes[k]);
        }
    }
}

/// The padding was constrained after the blocks were assigned.
proof fn constrained_run<L, K: Keccackf1600Instructions<L>>(
    chip: K,
    mode: HashMode,
    message: Seq<Option<u8>>,
    assigned: Seq<K::AssignedBlock>,
    states: Seq<K::State>,
    layouters: Seq<L>,
    start: L,
) -> (all: Seq<L>)
    requires
        assigned.len() == block_count(message.len()),
        layouters.len() == block_count(message.len()) + 1,
        ran(chip, mode, message, assigned, states, layouters),
        forall|i: int|
            0 <= i < assigned.len() ==> K::block_bytes(#[trigger] assigned[i]).len() == 136,
        padding_was_constrained(chip, mode, message.len(), layouters.last(), assigned, start),
    ensures
        all == layouters.push(start),
        ran(chip, mode, message, assigned, states, all),
{
    padding_is_as_described(mode, message);
    padding_cells_are_as_described::<L, K>(message.len(), assigned);
    next_step(chip, mode, message, assigned, states, layouters, start);
    layouters.push(start)
}

proof fn padding_cells_are_as_described<L, K: Keccackf1600Instructions<L>>(
    len: nat,
    assigned: Seq<K::AssignedBlock>,
)
    requires
        assigned.len() == block_count(len),
        forall|i: int|
            0 <= i < assigned.len() ==> K::block_bytes(#[trigger] assigned[i]).len() == 136,
    ensures
        bytes_of_blocks::<L, K>(assigned).skip(len as int) == padding_cells::<L, K>(len, assigned),
{
    cells_are_as_described::<L, K>(assigned);
    let bytes = bytes_of_blocks::<L, K>(assigned);
    let cells = padding_cells::<L, K>(len, assigned);
    assert forall|i: int| 0 <= i < padding_len(len) implies bytes.skip(len as int)[i]
        == #[trigger] cells[i] by {
        assert(bytes[len + i] == cell_of::<L, K>(assigned, len + i));
    }
    assert(bytes.skip(len as int) =~= cells);
}

/// A digest that fails has issued the instructions before some one of them, each
/// with success; that one failed, with the error of the reply, and left the
/// layouter `post`: none was issued after it.
pub proof fn failed_digest_stops_at_the_failure<L, K: Keccackf1600Instructions<L>>(
    chip: K,
    mode: HashMode,
    pre: L,
    message: Seq<Option<u8>>,
    post: L,
    e: K::Error,
)
    requires
        digests(
            chip,
            mode,
            pre,
            message,
            post,
            Err::<(Seq<K::AssignedByte>, K::Digest), K::Error>(e),
        ),
    ensures
        exists|assigned: Seq<K::AssignedBlock>, states: Seq<K::State>, layouters: Seq<L>|
            {
                let k = layouters.len() - 1;
                &&& #[trigger] ran(chip, mode, message, assigned, states, layouters)
                &&& 0 <= k <= 2 * block_count(message.len()) + 2
                &&& layouters[0] == pre
                &&& step_fails(chip, mode, message, assigned, states, k, layouters[k], post, e)
            },
{
    let reply = Err::<(Seq<K::AssignedByte>, K::Digest), K::Error>(e);
    let failed = Err::<K::Digest, K::Error>(e);
    let len = message.len();
    let n = block_count(len);
    let messages = blocks(pad(mode, message));
    padding_is_as_described(mode, message);
    let (mid, outcome) = choose|mid: L, outcome: Result<Seq<K::AssignedBlock>, K::Error>|
        #[trigger] digests_assigned(chip, mode, len, mid, outcome, post, reply)
            && assigns_blocks(chip, pre, messages, mid, outcome);
    if outcome is Err {
        let (layouters, assigned) = failed_assignment_steps(chip, pre, messages, mid, e);
        let states = Seq::<K::State>::empty();
        assert forall|k: int| 0 <= k < layouters.len() - 1 implies #[trigger] step_succeeds(
            chip,
            mode,
            message,
            assigned,
            states,
            k,
            layouters[k],
            layouters[k + 1],
        ) by {
            assert(messages[k] == padded_block(mode, message, k));
        }
        let k = layouters.len() - 1;
        assert(messages[k] == padded_block(mode, message, k));
        assert(ran(chip, mode, message, assigned, states, layouters));
        assert(step_fails(chip, mode, message, assigned, states, k, layouters[k], post, e));
    } else {
        let assigned = outcome->Ok_0;
        assert(digests_blocks(chip, mode, len, mid, assigned, post, reply));
        assert(constrains_and_runs_sponge(chip, mode, len, mid, assigned, post, failed));
        assigned_block_count(chip, pre, messages, mid, assigned);
        let padding_bytes = bytes_of_blocks::<L, K>(assigned).skip(len as int);
        padding_cells_are_as_described::<L, K>(len, assigned);
        let (start, constrained) = choose|start: L, constrained: Result<(), K::Error>|
            #[trigger] chip.constrains(
                mid,
                padding_bytes,
                padding_constraints(mode, missing_bytes(len)),
                start,
                constrained,
            ) && match constrained {
                Err(e) => post == start && failed == Err::<K::Digest, K::Error>(e),
                Ok(_) => runs_sponge(chip, start, assigned, post, failed),
            };
        if constrained is Err {
            let states = Seq::<K::State>::empty();
            let layouters = assigned_run(chip, mode, message, pre, mid, assigned, states);
            assert(step_fails(chip, mode, message, assigned, states, n, layouters[n], post, e));
        } else {
            assert(constrained->Ok_0 == ());
            failed_sponge_steps(chip, mode, message, pre, mid, assigned, start, post, e);
        }
    }
}

proof fn failed_sponge_steps<L, K: Keccackf1600Instructions<L>>(
    chip: K,
    mode: HashMode,
    message: Seq<Option<u8>>,
    pre: L,
    mid: L,
    assigned: Seq<K::AssignedBlock>,
    start: L,
    post: L,
    e: K::Error,
)
    requires
        assigns_blocks(
            chip,
            pre,
            blocks(pad(mode, message)),
            mid,
            Ok::<Seq<K::AssignedBlock>, K::Error>(assigned),
        ),
        forall|i: int|
            0 <= i < assigned.len() ==> K::block_bytes(#[trigger] assigned[i]).len() == 136,
        padding_was_constrained(chip, mode, message.len(), mid, assigned, start),
        runs_sponge(chip, start, assigned, post, Err::<K::Digest, K::Error>(e)),
    ensures
        exists|assigned: Seq<K::AssignedBlock>, states: Seq<K::State>, layouters: Seq<L>|
            {
                let k = layouters.len() - 1;
                &&& #[trigger] ran(chip, mode, message, assigned, states, layouters)
                &&& 0 <= k <= 2 * block_count(message.len()) + 2
                &&& layouters[0] == pre
                &&& step_fails(chip, mode, message, assigned, states, k, layouters[k], post, e)
            },
{
    let failed = Err::<K::Digest, K::Error>(e);
    let n = block_count(message.len());
    let none = Seq::<K::State>::empty();
    let base = assigned_run(chip, mode, message, pre, mid, assigned, none);
    assert(assigned.first() == assigned[0]);
    let (mid1, initial) = choose|mid1: L, initial: Result<K::State, K::Error>|
        #[trigger] chip.initializes(start, assigned.first(), mid1, initial) && match initial {
            Err(e) => post == mid1 && failed == Err::<K::Digest, K::Error>(e),
            Ok(first) => absorbs_and_finishes(chip, mid1, first, assigned.skip(1), post, failed),
        };
    if initial is Err {
        let layouters = constrained_run(chip, mode, message, assigned, none, base, start);
        assert(step_fails(chip, mode, message, assigned, none, n + 1, layouters[n + 1], post, e));
    } else {
        let first = initial->Ok_0;
        let (mid2, absorbed) = choose|mid2: L, absorbed: Result<K::State, K::Error>|
            #[trigger] absorbs_blocks(chip, mid1, first, assigned.skip(1), mid2, absorbed)
                && match absorbed {
                Err(e) => post == mid2 && failed == Err::<K::Digest, K::Error>(e),
                Ok(state) => finishes(chip, mid2, state, post, failed),
            };
        if absorbed is Err {
            let (more, states) = failed_absorption_steps(
                chip,
                mid1,
                first,
                assigned.skip(1),
                mid2,
                e,
            );
            let layouters = absorbing_run(
                chip,
                mode,
                message,
                pre,
                mid,
                assigned,
                start,
                states,
                more,
            );
            let k = layouters.len() - 1;
            assert(assigned.skip(1)[more.len() - 1] == assigned[more.len() as int]);
            assert(step_fails(chip, mode, message, assigned, states, k, layouters[k], post, e));
        } else {
            let state = absorbed->Ok_0;
            let (more, absorbed_states) = absorption_steps(
                chip,
                mid1,
                first,
                assigned.skip(1),
                mid2,
                state,
            );
            let (mid3, permuted) = choose|mid3: L, permuted: Result<K::State, K::Error>|
                #[trigger] chip.permutes(mid2, state, mid3, permuted) && match permuted {
                    Err(e) => post == mid3 && failed == Err::<K::Digest, K::Error>(e),
                    Ok(last) => chip.squeezes(mid3, last, post, failed),
                };
            let states = match permuted {
                Ok(last) => absorbed_states.push(last),
                Err(_) => absorbed_states,
            };
            assert forall|i: int| 0 <= i < more.len() - 1 implies chip.absorbs(
                more[i],
                states[i],
                Some(#[trigger] assigned.skip(1)[i]),
                more[i + 1],
                Ok::<K::State, K::Error>(states[i + 1]),
            ) by {}
            let layouters = absorbing_run(
                chip,
                mode,
                message,
                pre,
                mid,
                assigned,
                start,
                states,
                more,
            );
            if permuted is Err {
                let k = layouters.len() - 1;
                assert(step_fails(chip, mode, message, assigned, states, k, layouters[k], post, e));
            } else {
                next_step(chip, mode, message, assigned, states, layouters, mid3);
                let all = layouters.push(mid3);
                let k = all.len() - 1;
                assert(step_fails(chip, mode, message, assigned, states, k, all[k], post, e));
            }
        }
    }
}

/// The run up to some absorbed block.
proof fn absorbing_run<L, K: Keccackf1600Instructions<L>>(
    chip: K,
    mode: HashMode,
    message: Seq<Option<u8>>,
    pre: L,
    mid: L,
    assigned: Seq<K::AssignedBlock>,
    start: L,
    states: Seq<K::State>,
    more: Seq<L>,
) -> (layouters: Seq<L>)
    requires
        assigns_blocks(
            chip,
            pre,
            blocks(pad(mode, message)),
            mid,
            Ok::<Seq<K::AssignedBlock>, K::Error>(assigned),
        ),
        forall|i: int|
            0 <= i < assigned.len() ==> K::block_bytes(#[trigger] assigned[i]).len() == 136,
        padding_was_constrained(chip, mode, message.len(), mid, assigned, start),
        1 <= more.len() <= assigned.len(),
        chip.initializes(start, assigned[0], more[0], Ok::<K::State, K::Error>(states[0])),
        forall|i: int|
            0 <= i < more.len() - 1 ==> chip.absorbs(
                more[i],
                states[i],
                Some(#[trigger] assigned.skip(1)[i]),
                more[i + 1],
                Ok::<K::State, K::Error>(states[i + 1]),
            ),
    ensures
        layouters.len() == block_count(message.len()) + 2 + more.len(),
        layouters[0] == pre,
        layouters.last() == more.last(),
        ran(chip, mode, message, assigned, states, layouters),
{
    let layouters0 = assigned_run(chip, mode, message, pre, mid, assigned, states);
    let layouters1 = constrained_run(chip, mode, message, assigned, states, layouters0, start);
    next_step(chip, mode, message, assigned, states, layouters1, more[0]);
    let layouters2 = layouters1.push(more[0]);
    assert forall|i: int| 0 <= i < more.len() - 1 implies chip.absorbs(
        #[trigger] more[i],
        states[i],
        Some(assigned[i + 1]),
        more[i + 1],
        Ok::<K::State, K::Error>(states[i + 1]),
    ) by {
        assert(assigned.skip(1)[i] == assigned[i + 1]);
    }
    absorbed_run(chip, mode, message, assigned, states, layouters2, more);
    layouters2 + more.skip(1)
}

} // verus!
