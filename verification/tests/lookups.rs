//! The descriptions of lookups.

use sha3_gadget::expression::{Expression, Query};
use sha3_gadget::extraction::input_range;
use sha3_gadget::ir::{BoolExpr, ExprOrTemp, Stmt, Temps};
use sha3_gadget::lookup_callbacks::{
    sha3_lookup_callbacks, Error, Lookup, Mode, Sha3LookupCallbacks,
};
use sha3_gadget::scalar::Scalar;

fn constant(value: u64) -> ExprOrTemp {
    ExprOrTemp::Expr(Expression::from_u64(value))
}

fn cell(column_index: usize, rotation: i32) -> Expression {
    Expression::Advice(Query { column_index, rotation })
}

fn lookup(name: &str, inputs: Vec<Expression>) -> Lookup {
    Lookup { name: name.to_string(), idx: 5, inputs }
}

fn describe(name: &str, inputs: Vec<Expression>) -> Result<Stmt, Error> {
    let mut temps = Temps::starting_at(0);
    let result = sha3_lookup_callbacks().on_lookup(&lookup(name, inputs), &mut temps);
    assert_eq!(temps.count(), if result.is_ok() { 2 } else { 0 });
    result.map(|described| {
        assert_eq!(described.name, name);
        assert_eq!(described.idx, 5);
        described.stmt
    })
}

fn bounds(tag: ExprOrTemp, dense: ExprOrTemp, spread: ExprOrTemp) -> Stmt {
    let mut rows = vec![BoolExpr::And(vec![
        BoolExpr::Eq(tag.clone(), constant(0)),
        BoolExpr::Eq(dense.clone(), constant(0)),
        BoolExpr::Eq(spread.clone(), constant(0)),
    ])];
    let limits = [
        (2, 1),
        (4, 9),
        (8, 73),
        (16, 585),
        (32, 4681),
        (64, 37449),
        (128, 299593),
        (256, 2396745),
        (512, 19173961),
        (1024, 153391689),
        (2048, 1227133513),
        (4096, 9817068105),
        (8192, 78536544841),
    ];
    for (i, (dense_limit, spread_limit)) in limits.into_iter().enumerate() {
        rows.push(BoolExpr::And(vec![
            BoolExpr::Eq(tag.clone(), constant(i as u64 + 1)),
            BoolExpr::Lt(dense.clone(), constant(dense_limit)),
            BoolExpr::Le(spread.clone(), constant(spread_limit)),
        ]));
    }
    Stmt::Assert(BoolExpr::Or(rows))
}

fn call(callee: &str, input: ExprOrTemp, output: usize) -> Stmt {
    Stmt::Call { callee: callee.to_string(), inputs: vec![input], outputs: vec![output] }
}

fn call_into(callee: &str, input: ExprOrTemp, output: ExprOrTemp, temp: usize) -> Stmt {
    Stmt::Block(vec![call(callee, input, temp), Stmt::Eq(output, ExprOrTemp::Temp(temp))])
}

fn times(factor: u64, value: Expression) -> Expression {
    Expression::Product(Box::new(Expression::from_u64(factor)), Box::new(value))
}

fn det(value: Expression) -> BoolExpr {
    BoolExpr::Det(ExprOrTemp::Expr(value))
}

fn axioms(column: usize, rotation: i32) -> Stmt {
    let mut stmts = Vec::new();
    for x in 0..3 {
        for y in 0..3 {
            for z in 0..3 {
                let (a, b, c) =
                    (cell(column, rotation + x), cell(column, rotation + y), cell(column, rotation + z));
                let sum = Expression::Sum(
                    Box::new(Expression::Sum(Box::new(a.clone()), Box::new(times(2, b.clone())))),
                    Box::new(times(4, c.clone())),
                );
                stmts.push(Stmt::Assert(BoolExpr::Implies(
                    Box::new(det(sum)),
                    Box::new(BoolExpr::And(vec![det(a), det(b), det(c)])),
                )));
            }
        }
    }
    Stmt::Block(stmts)
}

fn unless_zero(spread: ExprOrTemp, dense: Option<ExprOrTemp>) -> BoolExpr {
    let no_spread = BoolExpr::Eq(spread, constant(0));
    BoolExpr::Not(Box::new(match dense {
        None => no_spread,
        Some(dense) => BoolExpr::And(vec![no_spread, BoolExpr::Eq(dense, constant(0))]),
    }))
}

#[test]
fn names_give_modes() {
    let cases = [
        ("spread byte lookup", Some(Mode::Byte)),
        ("spread byte lookup 17", Some(Mode::Byte)),
        ("spread byte lookup limb 0", Some(Mode::Byte)),
        ("decomposition lookup: limb 0", Some(Mode::Any)),
        ("decomposition lookup: limb 1", Some(Mode::Any)),
        ("decomposition lookup, again: limb 2", Some(Mode::Any)),
        ("decomposition lookup: limb 3", Some(Mode::Tag12)),
        ("decomposition lookup, again: limb 3", None),
        ("decomposition lookup limb 3", None),
        ("decomposition lookup: limb 4", Some(Mode::Tagged)),
        ("decomposition lookup: limb 5", Some(Mode::Tagged)),
        ("decomposition lookup: limb 6", None),
        ("decomposition lookup", None),
        ("decomposition lookuplimb 4", Some(Mode::Tagged)),
        ("lookup: limb 0", None),
        (" spread byte lookup", None),
        ("spread byte", None),
        ("limb 0", None),
        ("", None),
        ("décomposition lookup: limb 0", None),
        ("decomposition lookup é limb 0", Some(Mode::Any)),
    ];
    for (name, mode) in cases {
        assert_eq!(Sha3LookupCallbacks::mode(name), mode, "{name}");
    }
}

#[test]
fn unknown_names_are_refused() {
    let error = describe("range check", vec![cell(0, 0)]).unwrap_err();
    assert_eq!(error, Error::Name("range check".to_string()));
    assert_eq!(error.message(), "no callback for lookup range check");
}

#[test]
fn input_counts_are_checked() {
    let names = [
        ("spread byte lookup", 3),
        ("decomposition lookup: limb 0", 1),
        ("decomposition lookup: limb 3", 2),
        ("decomposition lookup: limb 4", 2),
    ];
    for (name, count) in names {
        for wrong in (0..5).filter(|n| *n != count) {
            let inputs = (0..wrong).map(|_| Expression::from_u64(99)).collect();
            let error = describe(name, inputs).unwrap_err();
            assert_eq!(error, Error::Inputs);
            assert_eq!(error.message(), "unexpected lookup inputs");
        }
    }
}

#[test]
fn tags_are_checked() {
    let byte = |tag: Expression| describe("spread byte lookup", vec![tag, cell(0, 0), cell(1, 0)]);
    let twelve = |tag: Expression| describe("decomposition lookup: limb 3", vec![tag, cell(1, 0)]);
    assert!(byte(Expression::from_u64(8)).is_ok());
    assert!(twelve(Expression::from_u64(12)).is_ok());
    for wrong in [Expression::from_u64(9), Expression::from_u64(0), cell(0, 0)] {
        assert_eq!(byte(wrong.clone()).unwrap_err(), Error::Tag);
        let error = twelve(wrong).unwrap_err();
        assert_eq!(error, Error::Tag);
        assert_eq!(error.message(), "unexpected lookup tag");
    }
    assert_eq!(byte(Expression::from_u64(12)).unwrap_err(), Error::Tag);
    // a tag behind an enabled selector
    let gated = Expression::Product(
        Box::new(Expression::Selector(0)),
        Box::new(Expression::from_u64(8)),
    );
    assert!(byte(gated).is_ok());
    let scaled = Expression::Scaled(Box::new(Expression::from_u64(4)), Scalar::from_u64(3));
    assert!(twelve(scaled).is_ok());
    // any tag goes for the last limbs
    assert!(describe("decomposition lookup: limb 5", vec![cell(0, 0), cell(1, 0)]).is_ok());
}

#[test]
fn byte_lookup_is_described() {
    let tag = Expression::from_u64(8);
    let dense = ExprOrTemp::Expr(cell(0, 0));
    let spread = ExprOrTemp::Expr(cell(1, -1));
    let stmt = describe("spread byte lookup", vec![tag, cell(0, 0), cell(1, -1)]).unwrap();
    assert_eq!(
        stmt,
        Stmt::EmitUnlessFalse {
            cond: unless_zero(spread.clone(), Some(dense.clone())),
            body: Box::new(Stmt::Block(vec![
                bounds(constant(8), dense.clone(), spread.clone()),
                call_into("Spread", dense.clone(), spread.clone(), 0),
                call_into("Unspread", spread, dense, 1),
                axioms(1, -1),
            ])),
        }
    );
}

#[test]
fn any_lookup_is_described() {
    let spread = ExprOrTemp::Expr(cell(2, 0));
    let stmt = describe("decomposition lookup: limb 1", vec![cell(2, 0)]).unwrap();
    assert_eq!(
        stmt,
        Stmt::EmitUnlessFalse {
            cond: unless_zero(spread.clone(), None),
            body: Box::new(Stmt::Block(vec![
                bounds(constant(13), ExprOrTemp::Temp(0), spread.clone()),
                call_into("Spread", ExprOrTemp::Temp(0), spread.clone(), 1),
                call("Unspread", spread, 0),
                axioms(2, 0),
            ])),
        }
    );
}

#[test]
fn tagged_lookup_without_a_cell_is_described() {
    let sum = Expression::Sum(Box::new(cell(1, 0)), Box::new(cell(2, 0)));
    let spread = ExprOrTemp::Expr(sum.clone());
    let tag = ExprOrTemp::Expr(cell(7, 0));
    let stmt = describe("decomposition lookup: limb 4", vec![cell(7, 0), sum]).unwrap();
    assert_eq!(
        stmt,
        Stmt::EmitUnlessFalse {
            cond: unless_zero(spread.clone(), None),
            body: Box::new(Stmt::Block(vec![
                bounds(tag, ExprOrTemp::Temp(0), spread.clone()),
                call_into("Spread", ExprOrTemp::Temp(0), spread.clone(), 1),
                call("Unspread", spread, 0),
                Stmt::Comment("determinism axiom unavailable".to_string()),
            ])),
        }
    );
}

#[test]
fn temporaries_have_no_axioms() {
    assert_eq!(
        Sha3LookupCallbacks::determinism(&ExprOrTemp::Temp(3)),
        Stmt::Comment("no determinism axiom for temporary spread".to_string())
    );
}

#[test]
fn lookups_do_not_share_temporaries() {
    let mut temps = Temps::starting_at(10);
    let callbacks = Sha3LookupCallbacks::default();
    let first = lookup("decomposition lookup: limb 0", vec![cell(0, 0)]);
    callbacks.on_lookup(&first, &mut temps).unwrap();
    assert_eq!(temps.count(), 12);
    let second = callbacks.on_lookup(&first, &mut temps).unwrap();
    assert_eq!(temps.count(), 14);
    let Stmt::EmitUnlessFalse { body, .. } = second.stmt else { unreachable!() };
    let Stmt::Block(stmts) = *body else { unreachable!() };
    let spread = ExprOrTemp::Expr(cell(0, 0));
    assert_eq!(stmts[1], call_into("Spread", ExprOrTemp::Temp(12), spread.clone(), 13));
    assert_eq!(stmts[2], call("Unspread", spread, 12));
}

#[test]
fn refused_lookups_draw_no_temporaries() {
    let mut temps = Temps::starting_at(4);
    let refused = lookup("decomposition lookup: limb 3", vec![cell(0, 0), cell(1, 0)]);
    assert_eq!(sha3_lookup_callbacks().on_lookup(&refused, &mut temps).unwrap_err(), Error::Tag);
    assert_eq!(temps.draw(), 4);
    assert_eq!(temps.count(), 5);
}

fn spread_of(dense: u64) -> u64 {
    (0..13).map(|i| ((dense >> i) & 1) << (3 * i)).sum()
}

#[test]
fn table_rows_meet_the_bounds() {
    for bits in 1..14u32 {
        let limit = (8u64.pow(bits) - 1) / 7;
        let largest = 2u64.pow(bits) - 1;
        assert!((0..=largest).all(|dense| spread_of(dense) <= limit));
        assert_eq!(spread_of(largest), limit);
    }
}

#[test]
fn weighted_sums_of_spread_values_tell_them_apart() {
    let mut seen = std::collections::HashSet::new();
    for x in 0..8 {
        for y in 0..8 {
            for z in 0..8 {
                assert!(seen.insert(spread_of(x) + 2 * spread_of(y) + 4 * spread_of(z)));
            }
        }
    }
}

#[test]
fn input_cells_are_bytes() {
    assert_eq!(
        input_range(&cell(0, 0)),
        Stmt::Lt(ExprOrTemp::Expr(cell(0, 0)), constant(256))
    );
}

#[test]
fn parts_ignore_further_inputs() {
    let inputs: Vec<Expression> = (0..5).map(|i| cell(i, 0)).collect();
    let many = lookup("any", inputs);
    let at = |i: usize| ExprOrTemp::Expr(cell(i, 0));
    let mut temps = Temps::starting_at(usize::MAX);
    assert_eq!(
        Sha3LookupCallbacks::parts(Mode::Byte, &many, &mut temps),
        (at(0), at(1), at(2))
    );
    assert_eq!(temps.count(), usize::MAX);
    let mut temps = Temps::starting_at(6);
    assert_eq!(
        Sha3LookupCallbacks::parts(Mode::Any, &many, &mut temps),
        (constant(13), ExprOrTemp::Temp(6), at(0))
    );
    assert_eq!(
        Sha3LookupCallbacks::parts(Mode::Tagged, &many, &mut temps),
        (at(0), ExprOrTemp::Temp(7), at(1))
    );
    assert_eq!(temps.count(), 8);
}

#[test]
fn selectors_do_not_change_the_axioms() {
    let gated = |inner: Expression| {
        Expression::Product(Box::new(Expression::Selector(2)), Box::new(inner))
    };
    let expected = Sha3LookupCallbacks::determinism(&ExprOrTemp::Expr(cell(1, 3)));
    assert_eq!(expected, axioms(1, 3));
    for value in [gated(cell(1, 3)), gated(gated(gated(cell(1, 3))))] {
        assert_eq!(Sha3LookupCallbacks::determinism(&ExprOrTemp::Expr(value)), expected);
    }
}
