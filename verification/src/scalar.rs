//! Elements of the field in which a circuit computes: the scalar field of
//! BLS12-381, as `midnight_curves` implements it.
//!
//! `midnight_curves::Fq` writes its canonical form out of 64-bit limbs in the
//! byte order of the machine. What is said here of that form is said for
//! little-endian machines.

use ff::PrimeField;
use midnight_curves::Fq;
use vstd::prelude::*;

use crate::le_bytes::le_value;

verus! {

/// The order of the field.
pub open spec fn modulus() -> nat {
    0x73eda753299d7d483339d80809a1d80553bda402fffe5bfeffffffff00000001nat
}

/// The bytes stand for a number below the order of the field.
pub open spec fn canonical(repr: Seq<u8>) -> bool {
    le_value(repr) < modulus()
}

/// Whether the bytes are the canonical form of a field element:
/// `ff::PrimeField::from_repr` of `midnight_curves::Fq` accepts these and no
/// others.
#[verifier::external_body]
fn fq_accepts(repr: [u8; 32]) -> (accepted: bool)
    ensures
        accepted == canonical(repr@),
{
    Fq::from_repr(repr).is_some().into()
}

/// The element that an integer stands for: `From<u64>` of
/// `midnight_curves::Fq`.
#[verifier::external_body]
fn fq_from_u64(value: u64) -> (repr: [u8; 32])
    ensures
        le_value(repr@) == value,
{
    Fq::from(value).to_repr()
}

/// The sum of two elements: `+` of `midnight_curves::Fq`, which adds modulo
/// the order of the field.
#[verifier::external_body]
fn fq_add(a: [u8; 32], b: [u8; 32]) -> (repr: [u8; 32])
    requires
        canonical(a@),
        canonical(b@),
    ensures
        le_value(repr@) == (le_value(a@) + le_value(b@)) % modulus(),
{
    (Fq::from_repr(a).unwrap() + Fq::from_repr(b).unwrap()).to_repr()
}

/// The product of two elements: `*` of `midnight_curves::Fq`, which multiplies
/// modulo the order of the field.
#[verifier::external_body]
fn fq_mul(a: [u8; 32], b: [u8; 32]) -> (repr: [u8; 32])
    requires
        canonical(a@),
        canonical(b@),
    ensures
        le_value(repr@) == (le_value(a@) * le_value(b@)) % modulus(),
{
    (Fq::from_repr(a).unwrap() * Fq::from_repr(b).unwrap()).to_repr()
}

/// The negation of an element: `-` of `midnight_curves::Fq`, which negates
/// modulo the order of the field.
#[verifier::external_body]
fn fq_neg(a: [u8; 32]) -> (repr: [u8; 32])
    requires
        canonical(a@),
    ensures
        le_value(repr@) == (modulus() - le_value(a@)) as nat % modulus(),
{
    (-Fq::from_repr(a).unwrap()).to_repr()
}

/// Whether two elements are the same: `==` of `midnight_curves::Fq`.
#[verifier::external_body]
fn fq_eq(a: [u8; 32], b: [u8; 32]) -> (same: bool)
    requires
        canonical(a@),
        canonical(b@),
    ensures
        same == (le_value(a@) == le_value(b@)),
{
    Fq::from_repr(a).unwrap() == Fq::from_repr(b).unwrap()
}

/// An element of the field, in its canonical form.
#[derive(Debug, Clone, Copy, PartialEq, Eq)]
pub struct Scalar {
    repr: [u8; 32],
}

impl View for Scalar {
    type V = nat;

    closed spec fn view(&self) -> nat {
        le_value(self.repr@)
    }
}

/// The sum in the field.
pub open spec fn field_add(a: nat, b: nat) -> nat {
    (a + b) % modulus()
}

/// The product in the field.
pub open spec fn field_mul(a: nat, b: nat) -> nat {
    (a * b) % modulus()
}

/// The negation in the field.
pub open spec fn field_neg(a: nat) -> nat {
    (modulus() - a) as nat % modulus()
}

impl Scalar {
    #[verifier::type_invariant]
    spec fn well_formed(self) -> bool {
        canonical(self.repr@)
    }

    /// The element that is written as `repr`, in little-endian order.
    pub fn from_repr(repr: [u8; 32]) -> (scalar: Option<Self>)
        ensures
            scalar is Some <==> canonical(repr@),
            scalar matches Some(s) ==> s@ == le_value(repr@),
    {
        if fq_accepts(repr) {
            Some(Self { repr })
        } else {
            None
        }
    }

    /// The canonical form, in little-endian order.
    pub fn to_repr(&self) -> (repr: [u8; 32])
        ensures
            canonical(repr@),
            le_value(repr@) == self@,
    {
        proof {
            use_type_invariant(self);
        }
        self.repr
    }

    /// The element that an integer stands for.
    pub fn from_u64(value: u64) -> (scalar: Self)
        ensures
            scalar@ == value,
    {
        Self { repr: fq_from_u64(value) }
    }

    /// The sum of two elements.
    pub fn plus(&self, other: &Self) -> (sum: Self)
        ensures
            sum@ == field_add(self@, other@),
    {
        proof {
            use_type_invariant(self);
            use_type_invariant(other);
        }
        Self { repr: fq_add(self.repr, other.repr) }
    }

    /// The product of two elements.
    pub fn times(&self, other: &Self) -> (product: Self)
        ensures
            product@ == field_mul(self@, other@),
    {
        proof {
            use_type_invariant(self);
            use_type_invariant(other);
        }
        Self { repr: fq_mul(self.repr, other.repr) }
    }

    /// The negation of an element.
    pub fn negated(&self) -> (negation: Self)
        ensures
            negation@ == field_neg(self@),
    {
        proof {
            use_type_invariant(self);
        }
        Self { repr: fq_neg(self.repr) }
    }

    /// Whether two elements are the same.
    pub fn same(&self, other: &Self) -> (same: bool)
        ensures
            same == (self@ == other@),
    {
        proof {
            use_type_invariant(self);
            use_type_invariant(other);
        }
        fq_eq(self.repr, other.repr)
    }
}

/// The results of the operations lie below the order of the field, differ from
/// the sum and the product of the numbers by a multiple of it, and a number and
/// its negation add up to a multiple of it.
pub proof fn field_operations_are_modular(a: nat, b: nat)
    ensures
        ({
            let order: nat =
                0x73eda753299d7d483339d80809a1d80553bda402fffe5bfeffffffff00000001nat;
            &&& field_add(a, b) < order
            &&& field_mul(a, b) < order
            &&& field_neg(a) < order
            &&& (a + b - field_add(a, b)) % (order as int) == 0
            &&& (a * b - field_mul(a, b)) % (order as int) == 0
            &&& a <= order ==> (a + field_neg(a)) % order == 0
        }),
{
    let product = a * b;
    assert(field_mul(a, b) == product % modulus());
}

/// The bytes that are accepted stand for the numbers below the order of the
/// field.
pub proof fn canonical_forms_lie_below_the_order(repr: Seq<u8>)
    ensures
        canonical(repr) <==> le_value(repr)
            < 0x73eda753299d7d483339d80809a1d80553bda402fffe5bfeffffffff00000001nat,
{
}

} // verus!
