//! Dense values and their spread forms.

use vstd::prelude::*;

verus! {

/// The power of a number.
pub open spec fn power(base: nat, exponent: nat) -> nat
    decreases exponent,
{
    if exponent == 0 {
        1
    } else {
        base * power(base, (exponent - 1) as nat)
    }
}

/// The spread form of a number: its bits, three places apart.
pub open spec fn spread(dense: nat) -> nat
    decreases dense,
{
    if dense == 0 {
        0
    } else {
        dense % 2 + 8 * spread(dense / 2)
    }
}

/// The spread form of the largest number of `bits` bits.
pub open spec fn max_spread(bits: nat) -> nat {
    ((power(8, bits) - 1) / 7) as nat
}

pub(crate) proof fn power_is_monotone(base: nat, low: nat, high: nat)
    requires
        base >= 1,
        low <= high,
    ensures
        1 <= power(base, low) <= power(base, high),
    decreases high,
{
    if high == 0 {
    } else if low == high {
        power_is_monotone(base, (high - 1) as nat, (high - 1) as nat);
        let smaller = power(base, (high - 1) as nat);
        assert(base * smaller >= 1) by (nonlinear_arith)
            requires
                base >= 1,
                smaller >= 1,
        ;
    } else {
        power_is_monotone(base, low, (high - 1) as nat);
        let smaller = power(base, (high - 1) as nat);
        assert(base * smaller >= smaller) by (nonlinear_arith)
            requires
                base >= 1,
                smaller >= 1,
        ;
    }
}

/// The powers up to the thirteenth are small.
pub(crate) proof fn powers_are_small(bits: nat)
    requires
        bits <= 13,
    ensures
        1 <= power(2, bits) <= 8192,
        1 <= power(8, bits) <= 549755813888,
{
    power_is_monotone(2, bits, 13);
    power_is_monotone(8, bits, 13);
    reveal_with_fuel(power, 14);
}

proof fn max_spread_step(bits: nat)
    ensures
        power(8, bits) == 7 * max_spread(bits) + 1,
        max_spread(bits + 1) == 8 * max_spread(bits) + 1,
        bits == 0 ==> max_spread(bits) == 0,
    decreases bits,
{
    if bits > 0 {
        max_spread_step((bits - 1) as nat);
    }
    assert(power(8, bits + 1) == 8 * power(8, bits));
}

/// Every number of at most `bits` bits has a spread form of at most
/// `max_spread(bits)`.
pub proof fn spread_is_bounded(dense: nat, bits: nat)
    requires
        dense < power(2, bits),
    ensures
        spread(dense) <= max_spread(bits),
    decreases bits,
{
    max_spread_step(bits);
    if bits > 0 {
        let fewer = (bits - 1) as nat;
        max_spread_step(fewer);
        assert(power(2, bits) == 2 * power(2, fewer));
        spread_is_bounded(dense / 2, fewer);
    }
}

/// The bound on spread forms is reached, by the largest number of `bits` bits.
pub proof fn spread_bound_is_reached(bits: nat)
    ensures
        power(2, bits) >= 1,
        spread((power(2, bits) - 1) as nat) == max_spread(bits),
    decreases bits,
{
    max_spread_step(bits);
    power_is_monotone(2, bits, bits);
    if bits > 0 {
        let fewer = (bits - 1) as nat;
        max_spread_step(fewer);
        spread_bound_is_reached(fewer);
        assert(power(2, bits) == 2 * power(2, fewer));
        let dense = (power(2, bits) - 1) as nat;
        assert(dense / 2 == (power(2, fewer) - 1) as nat);
        assert(dense % 2 == 1);
    }
}

/// Spreading loses nothing: two numbers with one spread form are the same.
pub proof fn spread_is_injective(a: nat, b: nat)
    requires
        spread(a) == spread(b),
    ensures
        a == b,
    decreases a + b,
{
    if a != 0 || b != 0 {
        spread_parity(a);
        spread_parity(b);
        spread_is_injective(a / 2, b / 2);
    }
}

proof fn spread_parity(dense: nat)
    ensures
        spread(dense) == dense % 2 + 8 * spread(dense / 2),
{
    if dense == 0 {
        assert(spread(0) == 0);
    }
}

/// A sum of three spread forms, the second doubled and the third counted four
/// times, determines all three.
pub proof fn weighted_sum_determines_parts(
    x: nat,
    y: nat,
    z: nat,
    other_x: nat,
    other_y: nat,
    other_z: nat,
)
    requires
        spread(x) + 2 * spread(y) + 4 * spread(z) == spread(other_x) + 2 * spread(other_y) + 4
            * spread(other_z),
    ensures
        x == other_x,
        y == other_y,
        z == other_z,
    decreases x + y + z + other_x + other_y + other_z,
{
    if x + y + z + other_x + other_y + other_z != 0 {
        spread_parity(x);
        spread_parity(y);
        spread_parity(z);
        spread_parity(other_x);
        spread_parity(other_y);
        spread_parity(other_z);
        let low = x % 2 + 2 * (y % 2) + 4 * (z % 2);
        let other_low = other_x % 2 + 2 * (other_y % 2) + 4 * (other_z % 2);
        let high = spread(x / 2) + 2 * spread(y / 2) + 4 * spread(z / 2);
        let other_high = spread(other_x / 2) + 2 * spread(other_y / 2) + 4 * spread(other_z / 2);
        assert(low + 8 * high == other_low + 8 * other_high);
        assert(low < 8 && other_low < 8);
        assert(high == other_high);
        weighted_sum_determines_parts(x / 2, y / 2, z / 2, other_x / 2, other_y / 2, other_z / 2);
    }
}

/// A power is the product of as many factors as the exponent says.
pub proof fn power_is_repeated_multiplication(base: nat, exponent: nat)
    ensures
        power(base, 0) == 1,
        power(base, exponent + 1) == power(base, exponent) * base,
{
    let smaller = power(base, exponent);
    assert(power(base, exponent + 1) == base * smaller);
    assert(base * smaller == smaller * base) by (nonlinear_arith);
}

/// The spread form of a number moves every bit to three times its place: one
/// more bit at the low end of the number moves the others by one place and their
/// spread forms by three.
pub proof fn spread_moves_bits_three_places(dense: nat)
    ensures
        spread(0) == 0,
        spread(2 * dense) == 8 * spread(dense),
        spread(2 * dense + 1) == 8 * spread(dense) + 1,
{
    spread_parity(2 * dense);
    spread_parity(2 * dense + 1);
}

/// The largest spread form of `bits` bits has a set bit at every third place,
/// `bits` of them: seven times it is one less than the power of eight.
pub proof fn max_spread_is_the_geometric_sum(bits: nat)
    ensures
        7 * max_spread(bits) + 1 == power(8, bits),
        max_spread(0) == 0,
        max_spread(bits + 1) == 8 * max_spread(bits) + 1,
{
    max_spread_step(bits);
    max_spread_step(0);
}

} // verus!
