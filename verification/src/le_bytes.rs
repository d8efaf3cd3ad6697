//! Numbers written as bytes in little-endian order.

use num_bigint::BigUint;
use vstd::prelude::*;

use crate::spread::power;

verus! {

/// The number that `bytes` stand for, least significant byte first.
pub open spec fn le_value(bytes: Seq<u8>) -> nat
    decreases bytes.len(),
{
    if bytes.len() == 0 {
        0
    } else {
        bytes[0] as nat + 256 * le_value(bytes.drop_first())
    }
}

/// Compares the number that `bytes` stand for with a bound: `<` of
/// `num_bigint::BigUint`, on the numbers that `BigUint::from_bytes_le` and
/// `BigUint::from` make.
#[verifier::external_body]
fn biguint_below(bytes: &[u8], bound: u16) -> (below: bool)
    ensures
        below == (le_value(bytes@) < bound),
{
    BigUint::from_bytes_le(bytes) < BigUint::from(bound)
}

/// Writes the number that `bytes` stand for with the fewest bytes, and at
/// least one: `num_bigint::BigUint::to_bytes_le`, on the number that
/// `BigUint::from_bytes_le` makes.
#[verifier::external_body]
fn biguint_bytes(bytes: &[u8]) -> (shortest: Vec<u8>)
    ensures
        le_value(shortest@) == le_value(bytes@),
        shortest@.len() >= 1,
        shortest@.len() > 1 ==> shortest@.last() != 0,
{
    BigUint::from_bytes_le(bytes).to_bytes_le()
}

/// Whether the number that `bytes` stand for fits in one byte.
pub fn fits_in_byte(bytes: &[u8]) -> (fits: bool)
    ensures
        fits == (le_value(bytes@) < 256),
{
    biguint_below(bytes, 256)
}

/// The byte that equals the number `bytes` stand for.
pub fn to_byte(bytes: &[u8]) -> (byte: u8)
    requires
        le_value(bytes@) < 256,
    ensures
        byte == le_value(bytes@),
{
    let shortest = biguint_bytes(bytes);
    match shortest.as_slice().first() {
        Some(byte) => {
            proof {
                if shortest@.len() > 1 {
                    last_byte_bounds_value(shortest@);
                }
                assert(le_value(shortest@.drop_first()) == 0);
            }
            *byte
        },
        None => 0,
    }
}

proof fn last_byte_bounds_value(bytes: Seq<u8>)
    requires
        bytes.len() > 1,
        bytes.last() != 0,
    ensures
        le_value(bytes) >= 256,
    decreases bytes.len(),
{
    let rest = bytes.drop_first();
    assert(rest.last() == bytes.last());
    if rest.len() > 1 {
        last_byte_bounds_value(rest);
    } else {
        assert(le_value(rest.drop_first()) == 0);
        assert(le_value(rest) >= 1);
    }
}

/// Bytes weigh by their places: one more byte at the end counts 256 times as
/// much as the place before it, and bytes stand for less than their number of
/// places allows.
pub proof fn last_byte_weighs_most(bytes: Seq<u8>, byte: u8)
    ensures
        le_value(Seq::<u8>::empty()) == 0,
        le_value(bytes.push(byte)) == le_value(bytes) + byte * power(256, bytes.len()),
        le_value(bytes) < power(256, bytes.len()),
    decreases bytes.len(),
{
    reveal_with_fuel(le_value, 2);
    if bytes.len() == 0 {
        assert(bytes =~= Seq::empty());
        assert(bytes.push(byte).drop_first() =~= Seq::empty());
        assert(power(256, 0) == 1);
        assert(byte * 1 == byte);
        assert(le_value(bytes.push(byte)) == byte);
    } else {
        let rest = bytes.drop_first();
        let all = bytes.push(byte);
        last_byte_weighs_most(rest, byte);
        assert(all.drop_first() =~= rest.push(byte));
        let weight = power(256, rest.len());
        assert(power(256, bytes.len()) == 256 * weight);
        assert(256 * (byte * weight) == byte * (256 * weight)) by (nonlinear_arith);
        assert(all[0] == bytes[0]);
        assert(le_value(all) == bytes[0] as nat + 256 * le_value(rest.push(byte)));
        assert(le_value(bytes) == bytes[0] as nat + 256 * le_value(rest));
    }
}

/// A number that fits in one byte is its first byte, and the other bytes are
/// zero.
pub proof fn small_number_is_its_first_byte(bytes: Seq<u8>)
    requires
        bytes.len() > 0,
    ensures
        le_value(bytes) < 256 ==> le_value(bytes) == bytes[0],
        le_value(bytes) < 256 <==> forall|i: int| 1 <= i < bytes.len() ==> #[trigger] bytes[i] == 0,
{
    let rest = bytes.drop_first();
    zero_number_is_zero_bytes(rest);
    assert forall|i: int| 1 <= i < bytes.len() implies #[trigger] bytes[i] == rest[i - 1] by {}
    if forall|i: int| 1 <= i < bytes.len() ==> #[trigger] bytes[i] == 0 {
        assert forall|i: int| 0 <= i < rest.len() implies #[trigger] rest[i] == 0 by {
            assert(rest[i] == bytes[i + 1]);
        }
    }
}

proof fn zero_number_is_zero_bytes(bytes: Seq<u8>)
    ensures
        le_value(bytes) == 0 <==> forall|i: int|
            0 <= i < bytes.len() ==> #[trigger] bytes[i] == 0,
    decreases bytes.len(),
{
    if bytes.len() != 0 {
        let rest = bytes.drop_first();
        zero_number_is_zero_bytes(rest);
        if le_value(bytes) == 0 {
            assert forall|i: int| 0 <= i < bytes.len() implies #[trigger] bytes[i] == 0 by {
                if i > 0 {
                    assert(bytes[i] == rest[i - 1]);
                }
            }
        }
        if forall|i: int| 0 <= i < bytes.len() ==> #[trigger] bytes[i] == 0 {
            assert forall|i: int| 0 <= i < rest.len() implies #[trigger] rest[i] == 0 by {
                assert(rest[i] == bytes[i + 1]);
            }
            assert(bytes[0] == 0);
        }
    }
}

} // verus!
