//! The circuit that is extracted: the SHA3-256 digest of one input byte, which
//! is given as a field element.

use vstd::prelude::*;

use crate::expression::{Expression, ExpressionView};
use crate::instructions::Keccackf1600Instructions;
use crate::ir::{ExprOrTemp, OperandView, Stmt, StmtView};
use crate::le_bytes::{le_value, small_number_is_its_first_byte, to_byte};
use crate::padding::HashMode;
use crate::sha3_256_gadget::{digests, Sha3_256};

verus! {

/// The statement that the input cell holds a byte.
pub fn input_range(cell: &Expression) -> (stmt: Stmt)
    ensures
        stmt@ == StmtView::Lt(
            OperandView::Expr(cell@),
            OperandView::Expr(ExpressionView::Constant(256)),
        ),
{
    Stmt::Lt(ExprOrTemp::Expr(cell.clone()), ExprOrTemp::Expr(Expression::from_u64(256)))
}

/// The input byte that a field element stands for, where its value is
/// witnessed.
pub open spec fn byte_of(value: Option<[u8; 32]>) -> Option<u8> {
    match value {
        Some(repr) => Some(le_value(repr@) as u8),
        None => None,
    }
}

/// Reads the input byte out of the canonical form of a field element, least
/// significant byte first.
pub fn input_byte(value: Option<[u8; 32]>) -> (byte: Option<u8>)
    requires
        value matches Some(repr) ==> le_value(repr@) < 256,
    ensures
        byte == byte_of(value),
        match value {
            Some(repr) => byte == Some(repr@[0]) && byte->0 as nat == le_value(repr@),
            None => byte is None,
        },
{
    match value {
        Some(repr) => {
            proof {
                small_number_is_its_first_byte(repr@);
            }
            Some(to_byte(repr.as_slice()))
        },
        None => None,
    }
}

/// Digests one input byte in circuit and returns the assigned input and
/// output.
pub fn digest_one_byte<L, KeccakF>(
    gadget: &Sha3_256<KeccakF>,
    layouter: &mut L,
    value: Option<[u8; 32]>,
) -> (reply: Result<([KeccakF::AssignedByte; 1], KeccakF::Digest), KeccakF::Error>) where
    KeccakF: Keccackf1600Instructions<L>,

    requires
        value matches Some(repr) ==> le_value(repr@) < 256,
    ensures
        digests(
            gadget.chip(),
            HashMode::Sha3_256,
            *old(layouter),
            seq![byte_of(value)],
            *final(layouter),
            match reply {
                Ok(pair) => Ok((pair.0@, pair.1)),
                Err(e) => Err(e),
            },
        ),
        digests(
            gadget.chip(),
            HashMode::Sha3_256,
            *old(layouter),
            seq![
                match value {
                    Some(repr) => Some(repr@[0]),
                    None => None,
                },
            ],
            *final(layouter),
            match reply {
                Ok(pair) => Ok((pair.0@, pair.1)),
                Err(e) => Err(e),
            },
        ),
{
    let input: [Option<u8>; 1] = [input_byte(value)];
    assert(input@ =~= seq![byte_of(value)]);
    proof {
        input_byte_is_the_field_element(value);
    }
    match gadget.digest(layouter, input.as_slice()) {
        Ok((mut bytes, digest)) => {
            let ghost all = bytes@;
            let byte: [KeccakF::AssignedByte; 1] = [bytes.remove(0)];
            assert(byte@ =~= all);
            Ok((byte, digest))
        },
        Err(e) => Err(e),
    }
}

/// The byte that is read and digested is the number that the field element
/// stands for, which is its first byte, as the others are zero. Where no value
/// is witnessed, neither is the byte.
pub proof fn input_byte_is_the_field_element(value: Option<[u8; 32]>)
    requires
        value matches Some(repr) ==> le_value(repr@) < 256,
    ensures
        match value {
            Some(repr) => {
                &&& byte_of(value) is Some
                &&& byte_of(value)->0 as nat == le_value(repr@)
                &&& byte_of(value)->0 == repr@[0]
                &&& forall|i: int| 1 <= i < 32 ==> #[trigger] repr@[i] == 0
            },
            None => byte_of(value) is None,
        },
{
    if let Some(repr) = value {
        small_number_is_its_first_byte(repr@);
    }
}

} // verus!
