//! What a circuit depends on: the length of the message and the mode, never the
//! bytes of the message.

use vstd::prelude::*;

use crate::constants::KECCAK_ABSORB_BYTES;
use crate::instructions::Keccackf1600Instructions;
use crate::padding::{
    blocks, missing_bytes, pad, padded_length_is_whole_blocks, padding_constraints, HashMode,
};
use crate::sha3_256_gadget::{
    absorbs_and_finishes, absorbs_blocks, absorbs_next_block, assigns_blocks, assigns_next_block,
    bytes_of_blocks, constrains_and_runs_sponge, digests, digests_assigned, digests_blocks,
    finishes, runs_sponge,
};
use crate::sponge::assigned_block_count;

verus! {

/// The two sequences are of one length and alike at each place.
pub open spec fn all_alike<T>(alike: spec_fn(T, T) -> bool, a: Seq<T>, b: Seq<T>) -> bool {
    &&& a.len() == b.len()
    &&& forall|i: int| 0 <= i < a.len() ==> alike(#[trigger] a[i], b[i])
}

/// Both replies are alike results, or both are the same error.
pub open spec fn replies_alike<T, E>(
    alike: spec_fn(T, T) -> bool,
    a: Result<T, E>,
    b: Result<T, E>,
) -> bool {
    match (a, b) {
        (Ok(x), Ok(y)) => alike(x, y),
        (Err(x), Err(y)) => x == y,
        _ => false,
    }
}

/// Both replies are blocks that are alike one by one, or both are the same
/// error.
pub open spec fn block_replies_alike<T, E>(
    alike: spec_fn(T, T) -> bool,
    a: Result<Seq<T>, E>,
    b: Result<Seq<T>, E>,
) -> bool {
    match (a, b) {
        (Ok(x), Ok(y)) => all_alike(alike, x, y),
        (Err(x), Err(y)) => x == y,
        _ => false,
    }
}

/// Both replies hold bytes that are alike one by one and digests that are
/// alike, or both are the same error.
pub open spec fn digest_replies_alike<B, D, E>(
    byte_alike: spec_fn(B, B) -> bool,
    digest_alike: spec_fn(D, D) -> bool,
    a: Result<(Seq<B>, D), E>,
    b: Result<(Seq<B>, D), E>,
) -> bool {
    match (a, b) {
        (Ok(x), Ok(y)) => all_alike(byte_alike, x.0, y.0) && digest_alike(x.1, y.1),
        (Err(x), Err(y)) => x == y,
        _ => false,
    }
}

/// The instructions of the chip behave independently of the values in the
/// cells: on what is alike they do what is alike. Layouters are alike that hold
/// one circuit, or one record of the instructions so far; cells are alike that
/// stand at one place, whatever their values.
pub open spec fn ignores_values<L, K: Keccackf1600Instructions<L>>(
    chip: K,
    layout_alike: spec_fn(L, L) -> bool,
    byte_alike: spec_fn(K::AssignedByte, K::AssignedByte) -> bool,
    block_alike: spec_fn(K::AssignedBlock, K::AssignedBlock) -> bool,
    state_alike: spec_fn(K::State, K::State) -> bool,
    digest_alike: spec_fn(K::Digest, K::Digest) -> bool,
) -> bool {
    &&& forall|a: K::AssignedBlock, b: K::AssignedBlock| #[trigger]
        block_alike(a, b) ==> all_alike(byte_alike, K::block_bytes(a), K::block_bytes(b))
    &&& forall|
        p1: L,
        bytes1: Seq<Option<u8>>,
        q1: L,
        r1: Result<K::AssignedBlock, K::Error>,
        p2: L,
        bytes2: Seq<Option<u8>>,
        q2: L,
        r2: Result<K::AssignedBlock, K::Error>,
    |
        #[trigger] chip.assigns(p1, bytes1, q1, r1) && #[trigger] chip.assigns(p2, bytes2, q2, r2)
            && layout_alike(p1, p2) && bytes1.len() == bytes2.len() ==> layout_alike(q1, q2)
            && replies_alike(block_alike, r1, r2)
    &&& forall|
        p1: L,
        bytes1: Seq<K::AssignedByte>,
        q1: L,
        r1: Result<(), K::Error>,
        p2: L,
        bytes2: Seq<K::AssignedByte>,
        q2: L,
        r2: Result<(), K::Error>,
        constraints: Seq<(usize, u8)>,
    |
        #[trigger] chip.constrains(p1, bytes1, constraints, q1, r1) && #[trigger] chip.constrains(
            p2,
            bytes2,
            constraints,
            q2,
            r2,
        ) && layout_alike(p1, p2) && all_alike(byte_alike, bytes1, bytes2) ==> layout_alike(q1, q2)
            && replies_alike(|x: (), y: ()| true, r1, r2)
    &&& forall|
        p1: L,
        b1: K::AssignedBlock,
        q1: L,
        r1: Result<K::State, K::Error>,
        p2: L,
        b2: K::AssignedBlock,
        q2: L,
        r2: Result<K::State, K::Error>,
    |
        #[trigger] chip.initializes(p1, b1, q1, r1) && #[trigger] chip.initializes(p2, b2, q2, r2)
            && layout_alike(p1, p2) && block_alike(b1, b2) ==> layout_alike(q1, q2)
            && replies_alike(state_alike, r1, r2)
    &&& forall|
        p1: L,
        s1: K::State,
        b1: K::AssignedBlock,
        q1: L,
        r1: Result<K::State, K::Error>,
        p2: L,
        s2: K::State,
        b2: K::AssignedBlock,
        q2: L,
        r2: Result<K::State, K::Error>,
    |
        #[trigger] chip.absorbs(p1, s1, Some(b1), q1, r1) && #[trigger] chip.absorbs(
            p2,
            s2,
            Some(b2),
            q2,
            r2,
        ) && layout_alike(p1, p2) && state_alike(s1, s2) && block_alike(b1, b2) ==> layout_alike(
            q1,
            q2,
        ) && replies_alike(state_alike, r1, r2)
    &&& forall|
        p1: L,
        s1: K::State,
        q1: L,
        r1: Result<K::State, K::Error>,
        p2: L,
        s2: K::State,
        q2: L,
        r2: Result<K::State, K::Error>,
    |
        #[trigger] chip.permutes(p1, s1, q1, r1) && #[trigger] chip.permutes(p2, s2, q2, r2)
            && layout_alike(p1, p2) && state_alike(s1, s2) ==> layout_alike(q1, q2)
            && replies_alike(state_alike, r1, r2)
    &&& forall|
        p1: L,
        s1: K::State,
        q1: L,
        r1: Result<K::Digest, K::Error>,
        p2: L,
        s2: K::State,
        q2: L,
        r2: Result<K::Digest, K::Error>,
    |
        #[trigger] chip.squeezes(p1, s1, q1, r1) && #[trigger] chip.squeezes(p2, s2, q2, r2)
            && layout_alike(p1, p2) && state_alike(s1, s2) ==> layout_alike(q1, q2)
            && replies_alike(digest_alike, r1, r2)
}

/// Messages of one length have, in one mode, as many blocks and the same
/// padding.
pub proof fn blocks_and_padding_depend_on_the_length(
    mode: HashMode,
    a: Seq<Option<u8>>,
    b: Seq<Option<u8>>,
)
    requires
        a.len() == b.len(),
    ensures
        blocks(pad(mode, a)).len() == blocks(pad(mode, b)).len(),
        pad(mode, a).skip(a.len() as int) == pad(mode, b).skip(b.len() as int),
{
    assert(pad(mode, a).skip(a.len() as int) =~= pad(mode, b).skip(b.len() as int));
}

/// The circuit depends on the length of the message and on the mode, never on
/// the bytes of the message. On a chip that ignores values, two digests in one
/// mode of messages of one length, which begin in alike layouters, leave alike
/// layouters: they issue the same instructions in the same order and constrain
/// alike cells to the same constants. Their replies are alike, too.
pub proof fn circuit_depends_on_length_and_mode<L, K: Keccackf1600Instructions<L>>(
    chip: K,
    layout_alike: spec_fn(L, L) -> bool,
    byte_alike: spec_fn(K::AssignedByte, K::AssignedByte) -> bool,
    block_alike: spec_fn(K::AssignedBlock, K::AssignedBlock) -> bool,
    state_alike: spec_fn(K::State, K::State) -> bool,
    digest_alike: spec_fn(K::Digest, K::Digest) -> bool,
    mode: HashMode,
    pre1: L,
    message1: Seq<Option<u8>>,
    post1: L,
    reply1: Result<(Seq<K::AssignedByte>, K::Digest), K::Error>,
    pre2: L,
    message2: Seq<Option<u8>>,
    post2: L,
    reply2: Result<(Seq<K::AssignedByte>, K::Digest), K::Error>,
)
    requires
        ignores_values(chip, layout_alike, byte_alike, block_alike, state_alike, digest_alike),
        message1.len() == message2.len(),
        layout_alike(pre1, pre2),
        digests(chip, mode, pre1, message1, post1, reply1),
        digests(chip, mode, pre2, message2, post2, reply2),
    ensures
        layout_alike(post1, post2),
        digest_replies_alike(byte_alike, digest_alike, reply1, reply2),
{
    let len = message1.len();
    let messages1 = blocks(pad(mode, message1));
    let messages2 = blocks(pad(mode, message2));
    padded_length_is_whole_blocks(mode, message1);
    padded_length_is_whole_blocks(mode, message2);
    let (mid1, outcome1) = choose|mid: L, outcome: Result<Seq<K::AssignedBlock>, K::Error>|
        #[trigger] digests_assigned(chip, mode, len, mid, outcome, post1, reply1)
            && assigns_blocks(chip, pre1, messages1, mid, outcome);
    let (mid2, outcome2) = choose|mid: L, outcome: Result<Seq<K::AssignedBlock>, K::Error>|
        #[trigger] digests_assigned(chip, mode, len, mid, outcome, post2, reply2)
            && assigns_blocks(chip, pre2, messages2, mid, outcome);
    assignments_alike(
        chip,
        layout_alike,
        byte_alike,
        block_alike,
        state_alike,
        digest_alike,
        pre1,
        messages1,
        mid1,
        outcome1,
        pre2,
        messages2,
        mid2,
        outcome2,
    );
    if outcome1 is Ok {
        let assigned1 = outcome1->Ok_0;
        let assigned2 = outcome2->Ok_0;
        assert(digests_blocks(chip, mode, len, mid1, assigned1, post1, reply1));
        assert(digests_blocks(chip, mode, len, mid2, assigned2, post2, reply2));
        let run1 = choose|run: Result<K::Digest, K::Error>|
            #[trigger] constrains_and_runs_sponge(chip, mode, len, mid1, assigned1, post1, run)
                && reply1 == match run {
                Err(e) => Err::<(Seq<K::AssignedByte>, K::Digest), K::Error>(e),
                Ok(d) => Ok((bytes_of_blocks::<L, K>(assigned1).take(len as int), d)),
            };
        let run2 = choose|run: Result<K::Digest, K::Error>|
            #[trigger] constrains_and_runs_sponge(chip, mode, len, mid2, assigned2, post2, run)
                && reply2 == match run {
                Err(e) => Err::<(Seq<K::AssignedByte>, K::Digest), K::Error>(e),
                Ok(d) => Ok((bytes_of_blocks::<L, K>(assigned2).take(len as int), d)),
            };
        assigned_block_count(chip, pre1, messages1, mid1, assigned1);
        bytes_alike::<L, K>(byte_alike, block_alike, assigned1, assigned2);
        let bytes1 = bytes_of_blocks::<L, K>(assigned1);
        let bytes2 = bytes_of_blocks::<L, K>(assigned2);
        constrained_runs_alike(
            chip,
            layout_alike,
            byte_alike,
            block_alike,
            state_alike,
            digest_alike,
            mode,
            len,
            mid1,
            assigned1,
            post1,
            run1,
            mid2,
            assigned2,
            post2,
            run2,
        );
        assert(replies_alike(digest_alike, run1, run2));
        parts_alike(byte_alike, bytes1, bytes2, len as int);
    }
}

proof fn parts_alike<T>(alike: spec_fn(T, T) -> bool, a: Seq<T>, b: Seq<T>, n: int)
    requires
        0 <= n <= a.len(),
        all_alike(alike, a, b),
    ensures
        all_alike(alike, a.take(n), b.take(n)),
        all_alike(alike, a.skip(n), b.skip(n)),
{
    assert forall|i: int| 0 <= i < a.skip(n).len() implies alike(
        #[trigger] a.skip(n)[i],
        b.skip(n)[i],
    ) by {
        assert(a.skip(n)[i] == a[n + i]);
        assert(b.skip(n)[i] == b[n + i]);
    }
}

proof fn assignments_alike<L, K: Keccackf1600Instructions<L>>(
    chip: K,
    layout_alike: spec_fn(L, L) -> bool,
    byte_alike: spec_fn(K::AssignedByte, K::AssignedByte) -> bool,
    block_alike: spec_fn(K::AssignedBlock, K::AssignedBlock) -> bool,
    state_alike: spec_fn(K::State, K::State) -> bool,
    digest_alike: spec_fn(K::Digest, K::Digest) -> bool,
    pre1: L,
    messages1: Seq<Seq<Option<u8>>>,
    post1: L,
    reply1: Result<Seq<K::AssignedBlock>, K::Error>,
    pre2: L,
    messages2: Seq<Seq<Option<u8>>>,
    post2: L,
    reply2: Result<Seq<K::AssignedBlock>, K::Error>,
)
    requires
        ignores_values(chip, layout_alike, byte_alike, block_alike, state_alike, digest_alike),
        messages1.len() == messages2.len(),
        forall|i: int| 0 <= i < messages1.len() ==> (#[trigger] messages1[i]).len()
            == KECCAK_ABSORB_BYTES,
        forall|i: int| 0 <= i < messages2.len() ==> (#[trigger] messages2[i]).len()
            == KECCAK_ABSORB_BYTES,
        layout_alike(pre1, pre2),
        assigns_blocks(chip, pre1, messages1, post1, reply1),
        assigns_blocks(chip, pre2, messages2, post2, reply2),
    ensures
        layout_alike(post1, post2),
        block_replies_alike(block_alike, reply1, reply2),
    decreases messages1.len(),
{
    if messages1.len() != 0 {
        let (mid1, before1) = choose|mid: L, before: Result<Seq<K::AssignedBlock>, K::Error>|
            #[trigger] assigns_next_block(chip, mid, before, messages1.last(), post1, reply1)
                && assigns_blocks(chip, pre1, messages1.drop_last(), mid, before);
        let (mid2, before2) = choose|mid: L, before: Result<Seq<K::AssignedBlock>, K::Error>|
            #[trigger] assigns_next_block(chip, mid, before, messages2.last(), post2, reply2)
                && assigns_blocks(chip, pre2, messages2.drop_last(), mid, before);
        assignments_alike(
            chip,
            layout_alike,
            byte_alike,
            block_alike,
            state_alike,
            digest_alike,
            pre1,
            messages1.drop_last(),
            mid1,
            before1,
            pre2,
            messages2.drop_last(),
            mid2,
            before2,
        );
        if before1 is Ok {
            let done1 = before1->Ok_0;
            let done2 = before2->Ok_0;
            let one1 = choose|one: Result<K::AssignedBlock, K::Error>|
                #[trigger] chip.assigns(mid1, messages1.last(), post1, one) && reply1 == match one {
                    Err(e) => Err::<Seq<K::AssignedBlock>, K::Error>(e),
                    Ok(block) => Ok(done1.push(block)),
                };
            let one2 = choose|one: Result<K::AssignedBlock, K::Error>|
                #[trigger] chip.assigns(mid2, messages2.last(), post2, one) && reply2 == match one {
                    Err(e) => Err::<Seq<K::AssignedBlock>, K::Error>(e),
                    Ok(block) => Ok(done2.push(block)),
                };
            assert(messages1.last() == messages1[messages1.len() - 1]);
            assert(messages2.last() == messages2[messages2.len() - 1]);
            assert(replies_alike(block_alike, one1, one2));
            if one1 is Ok {
                let all1 = done1.push(one1->Ok_0);
                let all2 = done2.push(one2->Ok_0);
                assert forall|i: int| 0 <= i < all1.len() implies block_alike(
                    #[trigger] all1[i],
                    all2[i],
                ) by {
                    if i < done1.len() {
                        assert(all1[i] == done1[i]);
                        assert(all2[i] == done2[i]);
                    }
                }
            }
        }
    }
}

proof fn bytes_alike<L, K: Keccackf1600Instructions<L>>(
    byte_alike: spec_fn(K::AssignedByte, K::AssignedByte) -> bool,
    block_alike: spec_fn(K::AssignedBlock, K::AssignedBlock) -> bool,
    assigned1: Seq<K::AssignedBlock>,
    assigned2: Seq<K::AssignedBlock>,
)
    requires
        forall|a: K::AssignedBlock, b: K::AssignedBlock| #[trigger]
            block_alike(a, b) ==> all_alike(byte_alike, K::block_bytes(a), K::block_bytes(b)),
        all_alike(block_alike, assigned1, assigned2),
    ensures
        all_alike(
            byte_alike,
            bytes_of_blocks::<L, K>(assigned1),
            bytes_of_blocks::<L, K>(assigned2),
        ),
    decreases assigned1.len(),
{
    if assigned1.len() != 0 {
        let n = assigned1.len() - 1;
        parts_alike(block_alike, assigned1, assigned2, n);
        assert(assigned1.take(n) =~= assigned1.drop_last());
        assert(assigned2.take(n) =~= assigned2.drop_last());
        bytes_alike::<L, K>(byte_alike, block_alike, assigned1.drop_last(), assigned2.drop_last());
        let head1 = bytes_of_blocks::<L, K>(assigned1.drop_last());
        let head2 = bytes_of_blocks::<L, K>(assigned2.drop_last());
        let last1 = K::block_bytes(assigned1[n]);
        let last2 = K::block_bytes(assigned2[n]);
        assert(block_alike(assigned1[n], assigned2[n]));
        assert(all_alike(byte_alike, last1, last2));
        assert forall|i: int| 0 <= i < (head1 + last1).len() implies byte_alike(
            #[trigger] (head1 + last1)[i],
            (head2 + last2)[i],
        ) by {
            if i < head1.len() {
                assert((head1 + last1)[i] == head1[i]);
            } else {
                assert((head1 + last1)[i] == last1[i - head1.len()]);
            }
        }
    }
}

proof fn constrained_runs_alike<L, K: Keccackf1600Instructions<L>>(
    chip: K,
    layout_alike: spec_fn(L, L) -> bool,
    byte_alike: spec_fn(K::AssignedByte, K::AssignedByte) -> bool,
    block_alike: spec_fn(K::AssignedBlock, K::AssignedBlock) -> bool,
    state_alike: spec_fn(K::State, K::State) -> bool,
    digest_alike: spec_fn(K::Digest, K::Digest) -> bool,
    mode: HashMode,
    len: nat,
    pre1: L,
    assigned1: Seq<K::AssignedBlock>,
    post1: L,
    reply1: Result<K::Digest, K::Error>,
    pre2: L,
    assigned2: Seq<K::AssignedBlock>,
    post2: L,
    reply2: Result<K::Digest, K::Error>,
)
    requires
        ignores_values(chip, layout_alike, byte_alike, block_alike, state_alike, digest_alike),
        layout_alike(pre1, pre2),
        assigned1.len() >= 1,
        len <= bytes_of_blocks::<L, K>(assigned1).len(),
        all_alike(block_alike, assigned1, assigned2),
        all_alike(
            byte_alike,
            bytes_of_blocks::<L, K>(assigned1),
            bytes_of_blocks::<L, K>(assigned2),
        ),
        constrains_and_runs_sponge(chip, mode, len, pre1, assigned1, post1, reply1),
        constrains_and_runs_sponge(chip, mode, len, pre2, assigned2, post2, reply2),
    ensures
        layout_alike(post1, post2),
        replies_alike(digest_alike, reply1, reply2),
{
    let padding1 = bytes_of_blocks::<L, K>(assigned1).skip(len as int);
    let padding2 = bytes_of_blocks::<L, K>(assigned2).skip(len as int);
    let constraints = padding_constraints(mode, missing_bytes(len));
    parts_alike(
        byte_alike,
        bytes_of_blocks::<L, K>(assigned1),
        bytes_of_blocks::<L, K>(assigned2),
        len as int,
    );
    let (mid1, constrained1) = choose|mid: L, constrained: Result<(), K::Error>|
        #[trigger] chip.constrains(pre1, padding1, constraints, mid, constrained)
            && match constrained {
            Err(e) => post1 == mid && reply1 == Err::<K::Digest, K::Error>(e),
            Ok(_) => runs_sponge(chip, mid, assigned1, post1, reply1),
        };
    let (mid2, constrained2) = choose|mid: L, constrained: Result<(), K::Error>|
        #[trigger] chip.constrains(pre2, padding2, constraints, mid, constrained)
            && match constrained {
            Err(e) => post2 == mid && reply2 == Err::<K::Digest, K::Error>(e),
            Ok(_) => runs_sponge(chip, mid, assigned2, post2, reply2),
        };
    assert(layout_alike(mid1, mid2));
    if constrained1 is Ok {
        sponges_alike(
            chip,
            layout_alike,
            byte_alike,
            block_alike,
            state_alike,
            digest_alike,
            mid1,
            assigned1,
            post1,
            reply1,
            mid2,
            assigned2,
            post2,
            reply2,
        );
    }
}

proof fn sponges_alike<L, K: Keccackf1600Instructions<L>>(
    chip: K,
    layout_alike: spec_fn(L, L) -> bool,
    byte_alike: spec_fn(K::AssignedByte, K::AssignedByte) -> bool,
    block_alike: spec_fn(K::AssignedBlock, K::AssignedBlock) -> bool,
    state_alike: spec_fn(K::State, K::State) -> bool,
    digest_alike: spec_fn(K::Digest, K::Digest) -> bool,
    pre1: L,
    assigned1: Seq<K::AssignedBlock>,
    post1: L,
    reply1: Result<K::Digest, K::Error>,
    pre2: L,
    assigned2: Seq<K::AssignedBlock>,
    post2: L,
    reply2: Result<K::Digest, K::Error>,
)
    requires
        ignores_values(chip, layout_alike, byte_alike, block_alike, state_alike, digest_alike),
        layout_alike(pre1, pre2),
        assigned1.len() >= 1,
        all_alike(block_alike, assigned1, assigned2),
        runs_sponge(chip, pre1, assigned1, post1, reply1),
        runs_sponge(chip, pre2, assigned2, post2, reply2),
    ensures
        layout_alike(post1, post2),
        replies_alike(digest_alike, reply1, reply2),
{
    let (mid1, initial1) = choose|mid: L, initial: Result<K::State, K::Error>|
        #[trigger] chip.initializes(pre1, assigned1.first(), mid, initial) && match initial {
            Err(e) => post1 == mid && reply1 == Err::<K::Digest, K::Error>(e),
            Ok(first) => absorbs_and_finishes(chip, mid, first, assigned1.skip(1), post1, reply1),
        };
    let (mid2, initial2) = choose|mid: L, initial: Result<K::State, K::Error>|
        #[trigger] chip.initializes(pre2, assigned2.first(), mid, initial) && match initial {
            Err(e) => post2 == mid && reply2 == Err::<K::Digest, K::Error>(e),
            Ok(first) => absorbs_and_finishes(chip, mid, first, assigned2.skip(1), post2, reply2),
        };
    assert(block_alike(assigned1[0], assigned2[0]));
    assert(assigned1.first() == assigned1[0]);
    assert(assigned2.first() == assigned2[0]);
    assert(replies_alike(state_alike, initial1, initial2));
    if initial1 is Ok {
        let (first1, first2) = (initial1->Ok_0, initial2->Ok_0);
        let (rest1, rest2) = (assigned1.skip(1), assigned2.skip(1));
        let (end1, absorbed1) = choose|mid: L, absorbed: Result<K::State, K::Error>|
            #[trigger] absorbs_blocks(chip, mid1, first1, rest1, mid, absorbed) && match absorbed {
                Err(e) => post1 == mid && reply1 == Err::<K::Digest, K::Error>(e),
                Ok(state) => finishes(chip, mid, state, post1, reply1),
            };
        let (end2, absorbed2) = choose|mid: L, absorbed: Result<K::State, K::Error>|
            #[trigger] absorbs_blocks(chip, mid2, first2, rest2, mid, absorbed) && match absorbed {
                Err(e) => post2 == mid && reply2 == Err::<K::Digest, K::Error>(e),
                Ok(state) => finishes(chip, mid, state, post2, reply2),
            };
        parts_alike(block_alike, assigned1, assigned2, 1);
        absorptions_alike(
            chip,
            layout_alike,
            byte_alike,
            block_alike,
            state_alike,
            digest_alike,
            mid1,
            first1,
            rest1,
            end1,
            absorbed1,
            mid2,
            first2,
            rest2,
            end2,
            absorbed2,
        );
        if absorbed1 is Ok {
            let (state1, state2) = (absorbed1->Ok_0, absorbed2->Ok_0);
            let (last1, permuted1) = choose|mid: L, permuted: Result<K::State, K::Error>|
                #[trigger] chip.permutes(end1, state1, mid, permuted) && match permuted {
                    Err(e) => post1 == mid && reply1 == Err::<K::Digest, K::Error>(e),
                    Ok(last) => chip.squeezes(mid, last, post1, reply1),
                };
            let (last2, permuted2) = choose|mid: L, permuted: Result<K::State, K::Error>|
                #[trigger] chip.permutes(end2, state2, mid, permuted) && match permuted {
                    Err(e) => post2 == mid && reply2 == Err::<K::Digest, K::Error>(e),
                    Ok(last) => chip.squeezes(mid, last, post2, reply2),
                };
            assert(replies_alike(state_alike, permuted1, permuted2));
        }
    }
}

proof fn absorptions_alike<L, K: Keccackf1600Instructions<L>>(
    chip: K,
    layout_alike: spec_fn(L, L) -> bool,
    byte_alike: spec_fn(K::AssignedByte, K::AssignedByte) -> bool,
    block_alike: spec_fn(K::AssignedBlock, K::AssignedBlock) -> bool,
    state_alike: spec_fn(K::State, K::State) -> bool,
    digest_alike: spec_fn(K::Digest, K::Digest) -> bool,
    pre1: L,
    first1: K::State,
    rest1: Seq<K::AssignedBlock>,
    post1: L,
    reply1: Result<K::State, K::Error>,
    pre2: L,
    first2: K::State,
    rest2: Seq<K::AssignedBlock>,
    post2: L,
    reply2: Result<K::State, K::Error>,
)
    requires
        ignores_values(chip, layout_alike, byte_alike, block_alike, state_alike, digest_alike),
        layout_alike(pre1, pre2),
        state_alike(first1, first2),
        all_alike(block_alike, rest1, rest2),
        absorbs_blocks(chip, pre1, first1, rest1, post1, reply1),
        absorbs_blocks(chip, pre2, first2, rest2, post2, reply2),
    ensures
        layout_alike(post1, post2),
        replies_alike(state_alike, reply1, reply2),
    decreases rest1.len(),
{
    if rest1.len() != 0 {
        let n = rest1.len() - 1;
        let (mid1, before1) = choose|mid: L, before: Result<K::State, K::Error>|
            #[trigger] absorbs_next_block(chip, mid, before, rest1.last(), post1, reply1)
                && absorbs_blocks(chip, pre1, first1, rest1.drop_last(), mid, before);
        let (mid2, before2) = choose|mid: L, before: Result<K::State, K::Error>|
            #[trigger] absorbs_next_block(chip, mid, before, rest2.last(), post2, reply2)
                && absorbs_blocks(chip, pre2, first2, rest2.drop_last(), mid, before);
        parts_alike(block_alike, rest1, rest2, n);
        assert(rest1.take(n) =~= rest1.drop_last());
        assert(rest2.take(n) =~= rest2.drop_last());
        assert(block_alike(rest1[n], rest2[n]));
        absorptions_alike(
            chip,
            layout_alike,
            byte_alike,
            block_alike,
            state_alike,
            digest_alike,
            pre1,
            first1,
            rest1.drop_last(),
            mid1,
            before1,
            pre2,
            first2,
            rest2.drop_last(),
            mid2,
            before2,
        );
    }
}

} // verus!
