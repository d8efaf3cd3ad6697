//! Field elements, numbers as bytes, and expressions over the field.

use ff::{Field, PrimeField};
use midnight_curves::Fq;
use sha3_gadget::expression::{Expression, Query};
use sha3_gadget::le_bytes::{fits_in_byte, to_byte};
use sha3_gadget::scalar::Scalar;

const ORDER: [u8; 32] = [
    1, 0, 0, 0, 255, 255, 255, 255, 254, 91, 254, 255, 2, 164, 189, 83, 5, 216, 161, 9, 8, 216, 57,
    51, 72, 125, 157, 41, 83, 167, 237, 115,
];

fn largest() -> [u8; 32] {
    let mut repr = ORDER;
    repr[0] = 0;
    repr
}

fn small(value: u8) -> [u8; 32] {
    let mut repr = [0; 32];
    repr[0] = value;
    repr
}

#[test]
fn numbers_that_fit_in_a_byte() {
    assert!(fits_in_byte(&[]));
    assert!(fits_in_byte(&[255]));
    assert!(fits_in_byte(&[255, 0, 0]));
    assert!(!fits_in_byte(&[0, 1]));
    assert!(!fits_in_byte(&[0, 0, 0, 1]));
    assert_eq!(to_byte(&[]), 0);
    assert_eq!(to_byte(&[0, 0]), 0);
    assert_eq!(to_byte(&[200]), 200);
    assert_eq!(to_byte(&[7, 0, 0, 0]), 7);
}

#[test]
fn canonical_forms() {
    assert_eq!(Scalar::from_repr([0; 32]).unwrap().to_repr(), [0; 32]);
    assert_eq!(Scalar::from_repr(largest()).unwrap().to_repr(), largest());
    assert!(Scalar::from_repr(ORDER).is_none());
    assert!(Scalar::from_repr([255; 32]).is_none());
    let mut repr = [0; 32];
    repr[..8].copy_from_slice(&u64::MAX.to_le_bytes());
    assert_eq!(Scalar::from_u64(u64::MAX).to_repr(), repr);
}

#[test]
fn arithmetic_is_modular() {
    let one = Scalar::from_u64(1);
    let minus_one = Scalar::from_repr(largest()).unwrap();
    assert_eq!(Scalar::from_u64(3).plus(&Scalar::from_u64(4)).to_repr(), small(7));
    assert_eq!(minus_one.plus(&one).to_repr(), [0; 32]);
    assert_eq!(minus_one.plus(&Scalar::from_u64(5)).to_repr(), small(4));
    assert_eq!(Scalar::from_u64(6).times(&Scalar::from_u64(7)).to_repr(), small(42));
    assert_eq!(minus_one.times(&minus_one).to_repr(), small(1));
    assert_eq!(one.negated().to_repr(), largest());
    assert_eq!(Scalar::from_u64(0).negated().to_repr(), [0; 32]);
    assert!(one.negated().same(&minus_one));
    assert!(!one.same(&minus_one));
}

#[test]
fn arithmetic_agrees_with_the_curve_crate() {
    let a = Fq::from(0x0123_4567_89ab_cdef).square();
    let b = -Fq::from(77).square();
    let x = Scalar::from_repr(a.to_repr()).unwrap();
    let y = Scalar::from_repr(b.to_repr()).unwrap();
    assert_eq!(x.plus(&y).to_repr(), (a + b).to_repr());
    assert_eq!(x.times(&y).to_repr(), (a * b).to_repr());
    assert_eq!(y.negated().to_repr(), (-b).to_repr());
    assert!(x.same(&x.plus(&Scalar::from_u64(0))));
}

fn constant(value: u64) -> Box<Expression> {
    Box::new(Expression::from_u64(value))
}

fn advice(column_index: usize, rotation: i32) -> Expression {
    Expression::Advice(Query { column_index, rotation })
}

fn value_of(expression: &Expression) -> Option<[u8; 32]> {
    expression.const_value().map(|scalar| scalar.to_repr())
}

#[test]
fn constant_expressions_have_a_value() {
    assert_eq!(value_of(&constant(9)), Some(small(9)));
    assert_eq!(value_of(&Expression::Selector(4)), Some(small(1)));
    assert_eq!(value_of(&Expression::Sum(constant(2), constant(3))), Some(small(5)));
    assert_eq!(value_of(&Expression::Product(constant(2), constant(3))), Some(small(6)));
    assert_eq!(value_of(&Expression::Scaled(constant(2), Scalar::from_u64(5))), Some(small(10)));
    assert_eq!(value_of(&Expression::Negated(constant(1))), Some(largest()));
    let nested = Expression::Sum(
        Box::new(Expression::Product(Box::new(Expression::Selector(0)), constant(10))),
        Box::new(Expression::Negated(constant(2))),
    );
    assert_eq!(value_of(&nested), Some(small(8)));
}

#[test]
fn expressions_that_read_cells_have_no_constant_value() {
    let query = Query { column_index: 0, rotation: 0 };
    let leaves = [
        Expression::Fixed(query),
        Expression::Advice(query),
        Expression::Instance(query),
        Expression::Challenge(0),
    ];
    for leaf in leaves {
        assert!(leaf.const_value().is_none());
        assert!(Expression::Negated(Box::new(leaf.clone())).const_value().is_none());
        assert!(Expression::Sum(constant(1), Box::new(leaf.clone())).const_value().is_none());
        assert!(Expression::Product(Box::new(leaf.clone()), constant(0)).const_value().is_none());
        assert!(Expression::Scaled(Box::new(leaf), Scalar::from_u64(2)).const_value().is_none());
    }
}

#[test]
fn advice_cells_show_through_selectors() {
    let query = Query { column_index: 3, rotation: -1 };
    let gated = |inner: Expression| {
        Expression::Product(Box::new(Expression::Selector(1)), Box::new(inner))
    };
    assert_eq!(advice(3, -1).advice(), Some(query));
    assert_eq!(gated(advice(3, -1)).advice(), Some(query));
    assert_eq!(gated(gated(advice(3, -1))).advice(), Some(query));
    assert_eq!(Expression::Product(constant(1), Box::new(advice(3, -1))).advice(), None);
    assert_eq!(
        Expression::Product(Box::new(advice(3, -1)), Box::new(Expression::Selector(1))).advice(),
        None
    );
    assert_eq!(gated(Expression::Fixed(query)).advice(), None);
}

#[test]
fn clones_are_equal() {
    let expression = Expression::Sum(
        Box::new(Expression::Scaled(Box::new(advice(1, 2)), Scalar::from_u64(3))),
        Box::new(Expression::Negated(Box::new(Expression::Challenge(1)))),
    );
    assert_eq!(expression.clone(), expression);
}
