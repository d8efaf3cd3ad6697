//! Message padding: what is appended to a message before it is absorbed, how
//! the padded message is cut into blocks, and which constants the padding
//! bytes have to be constrained to.
//!
//! A message byte is an `Option<u8>`: `Some` where the value is witnessed,
//! `None` where it is not (as when the circuit is laid out without a witness).

use vstd::prelude::*;

use crate::constants::KECCAK_ABSORB_BYTES;

verus! {

/// The two supported hash modes. These are:
///
/// - the SHA3-256 hash as standardized by NIST,
/// - the Keccak-256 hash as submitted by the Keccak team and used by Ethereum.
///
/// These only differ slightly in the implementation of message padding.
///
/// The two corresponding references can be found in
///
/// - [FIPS PUB 202](https://nvlpubs.nist.gov/nistpubs/FIPS/NIST.FIPS.202.pdf)
/// - [The Keccak reference](https://keccak.team/files/Keccak-reference-3.0.pdf)
#[derive(Debug, Clone, Copy, PartialEq, Eq, Structural)]
pub enum HashMode {
    Sha3_256,
    Keccak256,
}

impl HashMode {
    /// The byte that opens the padding, where more than one byte is missing.
    pub open spec fn opening_byte(self) -> u8 {
        match self {
            HashMode::Sha3_256 => 0x06,
            HashMode::Keccak256 => 0x01,
        }
    }

    /// The byte that is the whole padding, where one byte is missing.
    pub open spec fn single_byte(self) -> u8 {
        match self {
            HashMode::Sha3_256 => 0x86,
            HashMode::Keccak256 => 0x81,
        }
    }
}

/// The byte that closes the padding, where more than one byte is missing.
pub open spec fn closing_byte() -> u8 {
    0x80
}

/// How many bytes a message of `len` bytes misses: between one and a whole
/// block of them.
pub open spec fn missing_bytes(len: nat) -> nat {
    (KECCAK_ABSORB_BYTES - len % (KECCAK_ABSORB_BYTES as nat)) as nat
}

/// The padding for `missing` bytes.
pub open spec fn padding(mode: HashMode, missing: nat) -> Seq<u8> {
    Seq::new(
        missing,
        |i: int|
            if missing == 1 {
                mode.single_byte()
            } else if i == 0 {
                mode.opening_byte()
            } else if i == missing - 1 {
                closing_byte()
            } else {
                0x00
            },
    )
}

/// A message followed by its padding.
pub open spec fn pad(mode: HashMode, message: Seq<Option<u8>>) -> Seq<Option<u8>> {
    message + padding(mode, missing_bytes(message.len())).map_values(|b: u8| Some(b))
}

/// The consecutive blocks of a sequence whose length is a multiple of the
/// block length.
pub open spec fn blocks<T>(s: Seq<T>) -> Seq<Seq<T>> {
    Seq::new(
        s.len() / (KECCAK_ABSORB_BYTES as nat),
        |i: int| s.subrange(i * KECCAK_ABSORB_BYTES, (i + 1) * KECCAK_ABSORB_BYTES),
    )
}

/// The constraints on `missing` padding bytes, in the order in which they are
/// imposed, from the last byte to the first: at each step the position of a
/// byte in the padding and the constant it has to equal.
pub open spec fn padding_constraints(mode: HashMode, missing: nat) -> Seq<(usize, u8)> {
    Seq::new(
        missing,
        |i: int| ((missing - 1 - i) as usize, padding(mode, missing)[missing - 1 - i]),
    )
}

/// Pads a message.
///
/// Where one byte is missing, it is
/// - `0x86` for SHA3,
/// - `0x81` for Keccak.
///
/// Where more than one byte is missing, they are
/// - `0x06, 0x00, ..., 0x00, 0x80` for SHA3,
/// - `0x01, 0x00, ..., 0x00, 0x80` for Keccak.
pub fn pad_message(mode: HashMode, message: &[Option<u8>]) -> (padded: Vec<Option<u8>>)
    ensures
        padded@ == pad(mode, message@),
        padded@.len() % 136 == 0,
        message@.len() < padded@.len() <= message@.len() + 136,
        padded@.take(message@.len() as int) == message@,
        forall|k: int|
            message@.len() <= k < padded@.len() ==> #[trigger] padded@[k] == Some(
                (if k == message@.len() {
                    if mode == HashMode::Sha3_256 {
                        0x06u8
                    } else {
                        0x01u8
                    }
                } else {
                    0x00u8
                }) | (if k == padded@.len() - 1 {
                    0x80u8
                } else {
                    0x00u8
                }),
            ),
{
    let mut padded: Vec<Option<u8>> = Vec::new();
    for i in 0..message.len()
        invariant
            padded@ =~= message@.take(i as int),
    {
        padded.push(message[i]);
    }
    let q: usize = KECCAK_ABSORB_BYTES - message.len() % KECCAK_ABSORB_BYTES;
    if q == 1 {
        match mode {
            HashMode::Sha3_256 => padded.push(Some(0x86)),
            HashMode::Keccak256 => padded.push(Some(0x81)),
        }
    } else {
        match mode {
            HashMode::Sha3_256 => padded.push(Some(0x06)),
            HashMode::Keccak256 => padded.push(Some(0x01)),
        }
        for i in 0..q - 2
            invariant
                2 <= q,
                padded@ =~= message@ + seq![Some(mode.opening_byte())] + Seq::new(
                    i as nat,
                    |j: int| Some(0u8),
                ),
        {
            padded.push(Some(0x00));
        }
        padded.push(Some(0x80));
    }
    assert(padded@ =~= pad(mode, message@));
    proof {
        padded_message_follows_pad10star1(mode, message@);
    }
    padded
}

/// Cuts a padded message into blocks.
pub fn split_blocks(padded: &Vec<Option<u8>>) -> (cut: Vec<[Option<u8>; KECCAK_ABSORB_BYTES]>)
    requires
        padded@.len() % (KECCAK_ABSORB_BYTES as nat) == 0,
    ensures
        cut@.len() == blocks(padded@).len(),
        forall|i: int| 0 <= i < cut@.len() ==> (#[trigger] cut@[i])@ == blocks(padded@)[i],
        136 * cut@.len() == padded@.len(),
        forall|i: int, j: int|
            0 <= i < cut@.len() && 0 <= j < 136 ==> #[trigger] cut@[i]@[j] == padded@[136 * i + j],
{
    let total: usize = padded.len();
    let count: usize = total / KECCAK_ABSORB_BYTES;
    let mut cut: Vec<[Option<u8>; KECCAK_ABSORB_BYTES]> = Vec::new();
    for i in 0..count
        invariant
            total == padded@.len(),
            count == total / KECCAK_ABSORB_BYTES,
            cut@.len() == i,
            forall|k: int| 0 <= k < i ==> (#[trigger] cut@[k])@ == blocks(padded@)[k],
    {
        assert((i + 1) * KECCAK_ABSORB_BYTES <= total);
        let mut block: [Option<u8>; KECCAK_ABSORB_BYTES] = [None; KECCAK_ABSORB_BYTES];
        for j in 0..KECCAK_ABSORB_BYTES
            invariant
                (i + 1) * KECCAK_ABSORB_BYTES <= total,
                total == padded@.len(),
                forall|k: int|
                    0 <= k < j ==> (#[trigger] block@[k]) == padded@[i * KECCAK_ABSORB_BYTES + k],
        {
            block[j] = padded[i * KECCAK_ABSORB_BYTES + j];
        }
        assert(block@ =~= blocks(padded@)[i as int]);
        cut.push(block);
    }
    proof {
        blocks_are_consecutive(padded@);
        assert forall|i: int, j: int| 0 <= i < cut@.len() && 0 <= j < 136 implies #[trigger] cut@[i]@[j]
            == padded@[136 * i + j] by {
            assert(cut@[i]@ == blocks(padded@)[i]);
        }
    }
    cut
}

/// The constraints that give `missing` padding bytes the right values.
pub fn constraints_for_padding(mode: HashMode, missing: usize) -> (constraints: Vec<(usize, u8)>)
    ensures
        constraints@ == padding_constraints(mode, missing as nat),
        constraints@.len() == missing,
        forall|k: int|
            0 <= k < missing ==> (#[trigger] constraints@[k]).0 == missing - 1 - k
                && constraints@[k].1 == (if k == missing - 1 {
                if mode == HashMode::Sha3_256 {
                    0x06u8
                } else {
                    0x01u8
                }
            } else {
                0x00u8
            }) | (if k == 0 {
                0x80u8
            } else {
                0x00u8
            }),
{
    let mut constraints: Vec<(usize, u8)> = Vec::new();
    if missing == 1 {
        // one missing byte
        match mode {
            HashMode::Sha3_256 => constraints.push((0, 0x86)),
            HashMode::Keccak256 => constraints.push((0, 0x81)),
        }
    } else {
        for i in 0..missing
            invariant
                missing != 1,
                constraints@ =~= padding_constraints(mode, missing as nat).take(i as int),
        {
            let position: usize = missing - 1 - i;
            if i == 0 {
                // last padding byte
                constraints.push((position, 0x80));
            } else if i == missing - 1 {
                // first padding byte
                match mode {
                    HashMode::Sha3_256 => constraints.push((position, 0x06)),
                    HashMode::Keccak256 => constraints.push((position, 0x01)),
                }
            } else {
                // rest padding bytes
                constraints.push((position, 0x00));
            }
        }
    }
    assert(constraints@ =~= padding_constraints(mode, missing as nat));
    proof {
        constraints_follow_pad10star1(mode, missing);
    }
    constraints
}

/// The padding completes the last block: it is between one byte and a whole
/// block long, and the padded message is a positive number of whole blocks.
pub proof fn padded_length_is_whole_blocks(mode: HashMode, message: Seq<Option<u8>>)
    ensures
        1 <= missing_bytes(message.len()) <= KECCAK_ABSORB_BYTES,
        pad(mode, message).len() == message.len() + missing_bytes(message.len()),
        pad(mode, message).len() % (KECCAK_ABSORB_BYTES as nat) == 0,
        blocks(pad(mode, message)).len() == message.len() / (KECCAK_ABSORB_BYTES as nat) + 1,
{
}

/// Byte `k` of a whole number of blocks is byte `k % KECCAK_ABSORB_BYTES` of
/// block `k / KECCAK_ABSORB_BYTES`: cutting into blocks neither loses, adds
/// nor reorders a byte.
pub proof fn blocks_keep_every_byte<T>(s: Seq<T>, k: int)
    requires
        s.len() % (KECCAK_ABSORB_BYTES as nat) == 0,
        0 <= k < s.len(),
    ensures
        k / (KECCAK_ABSORB_BYTES as int) < blocks(s).len(),
        blocks(s)[k / (KECCAK_ABSORB_BYTES as int)].len() == KECCAK_ABSORB_BYTES,
        blocks(s)[k / (KECCAK_ABSORB_BYTES as int)][k % (KECCAK_ABSORB_BYTES as int)] == s[k],
{
}

/// The padding follows the `pad10*1` rule after the bits that separate the
/// modes: its first byte carries the opening byte, its last byte the closing
/// bit, and every other bit is clear, also where the first byte is the last.
pub proof fn padding_is_opening_and_closing_bits(mode: HashMode, missing: nat, i: int)
    requires
        0 <= i < missing,
    ensures
        padding(mode, missing)[i] == (if i == 0 {
            mode.opening_byte()
        } else {
            0u8
        }) | (if i == missing - 1 {
            closing_byte()
        } else {
            0u8
        }),
{
    assert(0x06u8 | 0x80u8 == 0x86u8) by (bit_vector);
    assert(0x01u8 | 0x80u8 == 0x81u8) by (bit_vector);
    assert(0x06u8 | 0u8 == 0x06u8) by (bit_vector);
    assert(0x01u8 | 0u8 == 0x01u8) by (bit_vector);
    assert(0u8 | 0x80u8 == 0x80u8) by (bit_vector);
    assert(0u8 | 0u8 == 0u8) by (bit_vector);
}

/// Padded messages differ where the messages or the modes do: no message of
/// either mode has the padded form of another one.
pub proof fn padding_is_injective(
    mode1: HashMode,
    message1: Seq<Option<u8>>,
    mode2: HashMode,
    message2: Seq<Option<u8>>,
)
    ensures
        pad(mode1, message1) == pad(mode2, message2) ==> mode1 == mode2 && message1 == message2,
{
    if pad(mode1, message1) == pad(mode2, message2) {
        if message1.len() < message2.len() {
            shorter_message_pads_differently(mode1, message1, mode2, message2);
        } else if message2.len() < message1.len() {
            shorter_message_pads_differently(mode2, message2, mode1, message1);
        } else {
            let n = message1.len() as int;
            assert(pad(mode1, message1)[n] == pad(mode2, message2)[n]);
            assert(message1 =~= pad(mode1, message1).take(n));
            assert(message2 =~= pad(mode2, message2).take(n));
        }
    }
}

proof fn shorter_message_pads_differently(
    mode1: HashMode,
    message1: Seq<Option<u8>>,
    mode2: HashMode,
    message2: Seq<Option<u8>>,
)
    requires
        message1.len() < message2.len(),
    ensures
        pad(mode1, message1) != pad(mode2, message2),
{
    let padded1 = pad(mode1, message1);
    let padded2 = pad(mode2, message2);
    if padded1 == padded2 {
        // the byte that opens the padding of the longer message stands inside
        // the padding of the shorter one, or closes it
        let n = message2.len() as int;
        let missing1 = missing_bytes(message1.len());
        let missing2 = missing_bytes(message2.len());
        assert(padded1.len() == padded2.len());
        assert(0 < n - message1.len() < missing1);
        assert(padded1[n] == Some(padding(mode1, missing1)[n - message1.len()]));
        assert(padded2[n] == Some(padding(mode2, missing2)[0]));
    }
}

/// The two modes pad a message to the same length and differ in the one byte
/// that follows the message.
pub proof fn modes_differ_in_one_byte(message: Seq<Option<u8>>)
    ensures
        pad(HashMode::Sha3_256, message).len() == pad(HashMode::Keccak256, message).len(),
        forall|k: int|
            0 <= k < pad(HashMode::Sha3_256, message).len() ==> (#[trigger] pad(
                HashMode::Sha3_256,
                message,
            )[k] == pad(HashMode::Keccak256, message)[k] <==> k != message.len()),
{
}

/// The constraints hold each padding byte to the value with which the message
/// was padded, each byte once.
pub proof fn constraints_match_padding(mode: HashMode, message: Seq<Option<u8>>, position: usize)
    requires
        position < missing_bytes(message.len()),
    ensures
        ({
            let missing = missing_bytes(message.len());
            let constraints = padding_constraints(mode, missing);
            &&& constraints.len() == missing
            &&& constraints[missing - 1 - position].0 == position
            &&& pad(mode, message)[message.len() + position] == Some(
                constraints[missing - 1 - position].1,
            )
        }),
{
}

proof fn byte_combinations()
    ensures
        0x06u8 | 0x80u8 == 0x86u8,
        0x01u8 | 0x80u8 == 0x81u8,
        0x06u8 | 0x00u8 == 0x06u8,
        0x01u8 | 0x00u8 == 0x01u8,
        0x00u8 | 0x80u8 == 0x80u8,
        0x00u8 | 0x00u8 == 0x00u8,
{
    assert(0x06u8 | 0x80u8 == 0x86u8) by (bit_vector);
    assert(0x01u8 | 0x80u8 == 0x81u8) by (bit_vector);
    assert(0x06u8 | 0x00u8 == 0x06u8) by (bit_vector);
    assert(0x01u8 | 0x00u8 == 0x01u8) by (bit_vector);
    assert(0x00u8 | 0x80u8 == 0x80u8) by (bit_vector);
    assert(0x00u8 | 0x00u8 == 0x00u8) by (bit_vector);
}

/// The padded message is the message followed by `pad10*1`: it is the shortest
/// longer sequence that fills blocks of 136 bytes. Of the bytes after the
/// message the first carries `0x06` for SHA3 or `0x01` for Keccak, the last
/// carries `0x80`, also where it is the first, and nothing else is set.
pub proof fn padded_message_follows_pad10star1(mode: HashMode, message: Seq<Option<u8>>)
    ensures
        pad(mode, message).len() % 136 == 0,
        message.len() < pad(mode, message).len() <= message.len() + 136,
        pad(mode, message).take(message.len() as int) == message,
        forall|k: int|
            message.len() <= k < pad(mode, message).len() ==> #[trigger] pad(mode, message)[k]
                == Some(
                (if k == message.len() {
                    if mode == HashMode::Sha3_256 {
                        0x06u8
                    } else {
                        0x01u8
                    }
                } else {
                    0x00u8
                }) | (if k == pad(mode, message).len() - 1 {
                    0x80u8
                } else {
                    0x00u8
                }),
            ),
{
    byte_combinations();
    assert(pad(mode, message).take(message.len() as int) =~= message);
}

/// The constraints on `missing` padding bytes are imposed from the last byte to
/// the first, one on each: the first byte is held to `0x06` for SHA3 or `0x01`
/// for Keccak, the last to `0x80`, where it is the first to both at once, and
/// every other to zero.
pub proof fn constraints_follow_pad10star1(mode: HashMode, missing: usize)
    ensures
        padding_constraints(mode, missing as nat).len() == missing,
        forall|k: int|
            0 <= k < missing ==> (#[trigger] padding_constraints(mode, missing as nat)[k]).0
                == missing - 1 - k && padding_constraints(mode, missing as nat)[k].1 == (if k
                == missing - 1 {
                if mode == HashMode::Sha3_256 {
                    0x06u8
                } else {
                    0x01u8
                }
            } else {
                0x00u8
            }) | (if k == 0 {
                0x80u8
            } else {
                0x00u8
            }),
{
    byte_combinations();
}

/// The number of bytes that a message misses completes its last block, and is
/// that of the padding.
pub proof fn missing_bytes_complete_the_block(mode: HashMode, message: Seq<Option<u8>>)
    ensures
        1 <= missing_bytes(message.len()) <= 136,
        (message.len() + missing_bytes(message.len())) % 136 == 0,
        pad(mode, message).len() == message.len() + missing_bytes(message.len()),
{
}

/// The blocks follow each other without a gap, each of 136 bytes, and leave
/// nothing over.
pub proof fn blocks_are_consecutive<T>(s: Seq<T>)
    requires
        s.len() % 136 == 0,
    ensures
        136 * blocks(s).len() == s.len(),
        forall|i: int| 0 <= i < blocks(s).len() ==> (#[trigger] blocks(s)[i]).len() == 136,
        forall|i: int, j: int|
            0 <= i < blocks(s).len() && 0 <= j < 136 ==> #[trigger] blocks(s)[i][j] == s[136 * i
                + j],
{
}

} // verus!
