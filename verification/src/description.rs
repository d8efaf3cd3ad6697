//! What the description of a lookup says, in terms of the lookup itself.

use vstd::prelude::*;

use crate::expression::{ExpressionView, Query};
use crate::ir::{evaluates, BoolView, OperandView, StmtView};
use crate::lookup_callbacks::{
    bounds_condition, call_stmt, call_temps, cell_below, constant, dense_part, determinism_axiom,
    determinism_stmt, emission_condition, has_rows_below, input_error, lookup_stmt, mode_of,
    part_temps, row_bound, spread_input, tag_part, verdict, weighted_sum, Error, ErrorView, Lookup,
    LookupView, Mode,
};
use crate::lookup_laws::{behind_selectors, bounds_meaning, emission_meaning};
use crate::spread::{max_spread_is_the_geometric_sum, power};

verus! {

/// An expression reads an advice cell exactly where it is that cell behind
/// selectors, none or some.
pub proof fn advice_is_a_cell_behind_selectors(expression: ExpressionView, query: Query)
    ensures
        expression.advice() == Some(query) <==> exists|selectors: Seq<usize>|
            expression == #[trigger] behind_selectors(selectors, ExpressionView::Advice(query)),
{
    if expression.advice() == Some(query) {
        let selectors = selectors_before(expression, query);
        assert(expression == behind_selectors(selectors, ExpressionView::Advice(query)));
    }
    if exists|selectors: Seq<usize>|
        expression == #[trigger] behind_selectors(selectors, ExpressionView::Advice(query)) {
        let selectors = choose|selectors: Seq<usize>|
            expression == #[trigger] behind_selectors(selectors, ExpressionView::Advice(query));
        advice_behind_selectors(selectors, query);
    }
}

proof fn selectors_before(expression: ExpressionView, query: Query) -> (selectors: Seq<usize>)
    requires
        expression.advice() == Some(query),
    ensures
        expression == behind_selectors(selectors, ExpressionView::Advice(query)),
    decreases expression,
{
    match expression {
        ExpressionView::Product(a, b) => {
            let inner = selectors_before(*b, query);
            let selectors = seq![(*a)->Selector_0] + inner;
            assert(selectors.drop_first() =~= inner);
            assert(selectors.first() == (*a)->Selector_0);
            selectors
        },
        _ => Seq::empty(),
    }
}

proof fn advice_behind_selectors(selectors: Seq<usize>, query: Query)
    ensures
        behind_selectors(selectors, ExpressionView::Advice(query)).advice() == Some(query),
    decreases selectors.len(),
{
    if selectors.len() != 0 {
        advice_behind_selectors(selectors.drop_first(), query);
    }
}

/// How many inputs the lookups of a mode have.
pub open spec fn arity(mode: Mode) -> nat {
    match mode {
        Mode::Any => 1,
        Mode::Tag12 => 2,
        Mode::Tagged => 2,
        Mode::Byte => 3,
    }
}

/// A lookup is accepted exactly where its name is known, it has as many inputs as
/// its mode asks for, and the first of them is the constant eight in a byte
/// lookup and the constant twelve in one with that tag. Else the error is the
/// first of these that does not hold.
pub proof fn lookups_are_accepted_by_name_inputs_and_tag(lookup: LookupView, mode: Mode)
    ensures
        mode_of(lookup.name) is None ==> verdict(lookup) == Err::<Mode, ErrorView>(
            ErrorView::Name(lookup.name),
        ),
        mode_of(lookup.name) == Some(mode) ==> {
            let tag = lookup.inputs[0].const_value();
            let tag_is_right = (mode == Mode::Byte ==> tag == Some(8nat)) && (mode == Mode::Tag12
                ==> tag == Some(12nat));
            &&& lookup.inputs.len() != arity(mode) ==> verdict(lookup) == Err::<Mode, ErrorView>(
                ErrorView::Inputs,
            )
            &&& lookup.inputs.len() == arity(mode) && !tag_is_right ==> verdict(lookup) == Err::<
                Mode,
                ErrorView,
            >(ErrorView::Tag)
            &&& lookup.inputs.len() == arity(mode) && tag_is_right ==> verdict(lookup) == Ok::<
                Mode,
                ErrorView,
            >(mode)
        },
{
}

/// The inputs of a lookup are refused for their number, wherever that is wrong,
/// and else for their tag, where the mode asks for one and it is another.
pub proof fn inputs_are_checked_by_number_and_tag(mode: Mode, inputs: Seq<ExpressionView>)
    ensures
        input_error(mode, inputs) == Some(ErrorView::Inputs) <==> inputs.len() != arity(mode),
        input_error(mode, inputs) == Some(ErrorView::Tag) <==> inputs.len() == arity(mode) && (
        mode == Mode::Byte && inputs[0].const_value() != Some(8nat) || mode == Mode::Tag12
            && inputs[0].const_value() != Some(12nat)),
        input_error(mode, inputs) matches Some(error) ==> error is Inputs || error is Tag,
{
}

/// What a user is told of an error is one of three texts. The last ends with the
/// name of the lookup, whatever it is.
pub proof fn messages_are_told_apart(name: Seq<char>)
    ensures
        ErrorView::Inputs.message() == "unexpected lookup inputs"@,
        ErrorView::Tag.message() == "unexpected lookup tag"@,
        ErrorView::Name(name).message() == "no callback for lookup "@ + name,
{
}

proof fn parts_of_a_name(name: Seq<char>, limb: Seq<char>)
    requires
        limb.len() == 6,
        limb[0] == 'l',
        limb[1] == 'i',
    ensures
        "decomposition lookup"@.is_prefix_of(name) && limb.is_suffix_of(name) <==> exists|
            between: Seq<char>,
        | name == #[trigger] ("decomposition lookup"@ + between) + limb,
{
    reveal_strlit("decomposition lookup");
    let start = "decomposition lookup"@;
    let len = name.len() as int;
    if start.is_prefix_of(name) && limb.is_suffix_of(name) {
        assert(name.subrange(0, 20) == start);
        assert(name.subrange(len - 6, len) == limb);
        assert(forall|i: int| 0 <= i < 20 ==> name[i] == #[trigger] start[i]) by {
            assert(forall|i: int|
                0 <= i < 20 ==> name.subrange(0, 20)[i] == #[trigger] start[i]);
        }
        assert(name.subrange(len - 6, len)[0] == 'l');
        assert(name.subrange(len - 6, len)[1] == 'i');
        assert(name[len - 6] == 'l');
        assert(name[len - 5] == 'i');
        assert(len >= 26) by {
            assert(start[15] == 'o' && start[16] == 'o' && start[17] == 'k' && start[18] == 'u'
                && start[19] == 'p');
            if len == 20 {
                assert(name[15] == start[15]);
            } else if len == 21 {
                assert(name[16] == start[16]);
            } else if len == 22 {
                assert(name[17] == start[17]);
            } else if len == 23 {
                assert(name[18] == start[18]);
            } else if len == 24 {
                assert(name[19] == start[19]);
            } else if len == 25 {
                assert(name[19] == start[19]);
            }
        }
        let between = name.subrange(20, len - 6);
        assert(name =~= (start + between) + limb);
    }
    if exists|between: Seq<char>| name == #[trigger] (start + between) + limb {
        let between = choose|between: Seq<char>| name == #[trigger] (start + between) + limb;
        assert(name.subrange(0, 20) =~= start);
        assert(name.subrange(len - 6, len) =~= limb);
    }
}

/// The names of the lookups. A byte lookup begins with `spread byte lookup`; one
/// of the limbs zero to two, and one of the limbs four and five, begins with
/// `decomposition lookup` and ends with the number of its limb, with anything
/// between; that of limb three is called as below and in no other way. No other
/// name is known.
pub proof fn names_tell_the_modes(name: Seq<char>)
    ensures
        mode_of(name) == Some(Mode::Byte) <==> exists|rest: Seq<char>|
            name == #[trigger] ("spread byte lookup"@ + rest),
        mode_of(name) == Some(Mode::Any) <==> exists|between: Seq<char>|
            {
                let start = #[trigger] ("decomposition lookup"@ + between);
                name == start + "limb 0"@ || name == start + "limb 1"@ || name == start
                    + "limb 2"@
            },
        mode_of(name) == Some(Mode::Tag12) <==> name == "decomposition lookup: limb 3"@,
        mode_of(name) == Some(Mode::Tagged) <==> exists|between: Seq<char>|
            {
                let start = #[trigger] ("decomposition lookup"@ + between);
                name == start + "limb 4"@ || name == start + "limb 5"@
            },
{
    reveal_strlit("spread byte lookup");
    reveal_strlit("decomposition lookup");
    reveal_strlit("decomposition lookup: limb 3");
    reveal_strlit("limb 0");
    reveal_strlit("limb 1");
    reveal_strlit("limb 2");
    reveal_strlit("limb 4");
    reveal_strlit("limb 5");
    let byte = "spread byte lookup"@;
    let limbs = "decomposition lookup"@;
    let three = "decomposition lookup: limb 3"@;
    let len = name.len() as int;
    parts_of_a_name(name, "limb 0"@);
    parts_of_a_name(name, "limb 1"@);
    parts_of_a_name(name, "limb 2"@);
    parts_of_a_name(name, "limb 4"@);
    parts_of_a_name(name, "limb 5"@);
    if byte.is_prefix_of(name) {
        assert(name =~= byte + name.skip(18));
        assert(name.subrange(0, 18)[0] == 's');
    }
    if exists|rest: Seq<char>| name == #[trigger] (byte + rest) {
        let rest = choose|rest: Seq<char>| name == #[trigger] (byte + rest);
        assert(name.subrange(0, 18) =~= byte);
    }
    if limbs.is_prefix_of(name) {
        assert(name.subrange(0, 20)[0] == 'd');
    }
    if name == three {
        assert(name.subrange(len - 6, len)[5] == '3');
        assert(name[0] == 'd');
    }
    assert("limb 0"@[5] == '0' && "limb 1"@[5] == '1' && "limb 2"@[5] == '2' && "limb 4"@[5] == '4'
        && "limb 5"@[5] == '5');
    if len >= 6 {
        let last = name.subrange(len - 6, len);
        assert("limb 0"@.is_suffix_of(name) ==> last[5] == '0');
        assert("limb 1"@.is_suffix_of(name) ==> last[5] == '1');
        assert("limb 2"@.is_suffix_of(name) ==> last[5] == '2');
        assert("limb 4"@.is_suffix_of(name) ==> last[5] == '4');
        assert("limb 5"@.is_suffix_of(name) ==> last[5] == '5');
    }
}

/// The tag of the row that a lookup looks for: thirteen where it is not named,
/// else the first input.
pub open spec fn row_tag(mode: Mode, inputs: Seq<ExpressionView>) -> OperandView {
    if mode == Mode::Any {
        OperandView::Expr(ExpressionView::Constant(13))
    } else {
        OperandView::Expr(inputs[0])
    }
}

/// The dense value of the row that a lookup looks for: the second of three
/// inputs, else the first new temporary.
pub open spec fn row_dense(mode: Mode, inputs: Seq<ExpressionView>, next: nat) -> OperandView {
    if inputs.len() == 3 {
        OperandView::Expr(inputs[1])
    } else {
        OperandView::Temp(next)
    }
}

/// The spread value of the row that a lookup looks for: the last input.
pub open spec fn row_spread(inputs: Seq<ExpressionView>) -> OperandView {
    OperandView::Expr(inputs[inputs.len() - 1])
}

/// In every mode the spread value of the row is the last input of the lookup. The
/// tag is the first input, or thirteen where that is the only one; the dense
/// value is the input between them, or a new temporary where there is none. So
/// the three parts are never the same input.
pub proof fn parts_are_distinct_inputs(mode: Mode, inputs: Seq<ExpressionView>, next: nat)
    requires
        inputs.len() == arity(mode),
    ensures
        OperandView::Expr(spread_input(mode, inputs)) == row_spread(inputs),
        tag_part(mode, inputs) == row_tag(mode, inputs),
        dense_part(mode, inputs, next) == row_dense(mode, inputs, next),
        spread_input(mode, inputs) == inputs[inputs.len() - 1],
        inputs.len() == 1 ==> tag_part(mode, inputs) == OperandView::Expr(
            ExpressionView::Constant(13),
        ),
        inputs.len() > 1 ==> tag_part(mode, inputs) == OperandView::Expr(inputs[0]),
        inputs.len() == 3 ==> dense_part(mode, inputs, next) == OperandView::Expr(inputs[1]),
        inputs.len() < 3 ==> dense_part(mode, inputs, next) == OperandView::Temp(next),
{
}

/// Inputs beyond those that a mode reads play no part.
pub proof fn further_inputs_play_no_part(
    mode: Mode,
    inputs: Seq<ExpressionView>,
    further: Seq<ExpressionView>,
    next: nat,
)
    requires
        inputs.len() == arity(mode),
    ensures
        tag_part(mode, inputs + further) == tag_part(mode, inputs),
        dense_part(mode, inputs + further, next) == dense_part(mode, inputs, next),
        spread_input(mode, inputs + further) == spread_input(mode, inputs),
{
}

/// The condition that the determinism axioms for the spread value `spread`
/// state: where `spread` is a cell behind selectors, and the sum of the cell `x`
/// rows below it, twice that `y` rows below and four times that `z` rows below
/// is deterministic, for any `x`, `y` and `z` up to two, each of the three cells
/// is.
pub open spec fn axioms_hold(spread: ExpressionView, det: spec_fn(OperandView) -> bool) -> bool {
    forall|selectors: Seq<usize>, query: Query, x: int, y: int, z: int|
        spread == #[trigger] behind_selectors(selectors, ExpressionView::Advice(query)) && 0 <= x
            <= 2 && 0 <= y <= 2 && 0 <= z <= 2 && det(
            OperandView::Expr(
                #[trigger] sum_of_cells(
                    ExpressionView::Advice(rows_below(query, x)),
                    ExpressionView::Advice(rows_below(query, y)),
                    ExpressionView::Advice(rows_below(query, z)),
                ),
            ),
        ) ==> {
            &&& det(OperandView::Expr(ExpressionView::Advice(rows_below(query, x))))
            &&& det(OperandView::Expr(ExpressionView::Advice(rows_below(query, y))))
            &&& det(OperandView::Expr(ExpressionView::Advice(rows_below(query, z))))
        }
}

/// The place `rows` rows below another.
pub open spec fn rows_below(query: Query, rows: int) -> Query {
    Query { column_index: query.column_index, rotation: (query.rotation + rows) as i32 }
}

/// The expression `a + 2 * b + 4 * c`.
pub open spec fn sum_of_cells(
    a: ExpressionView,
    b: ExpressionView,
    c: ExpressionView,
) -> ExpressionView {
    let twice = ExpressionView::Product(Box::new(ExpressionView::Constant(2)), Box::new(b));
    let four_times = ExpressionView::Product(Box::new(ExpressionView::Constant(4)), Box::new(c));
    ExpressionView::Sum(
        Box::new(ExpressionView::Sum(Box::new(a), Box::new(twice))),
        Box::new(four_times),
    )
}

/// For every lookup whose spread value is an advice cell behind selectors, none
/// or some, whatever its mode, the last statement of the description asserts,
/// for any `x`, `y` and `z` up to two: if the sum of the cell `x` rows below,
/// twice that `y` rows below and four times that `z` rows below is
/// deterministic, each of the three cells is. There are twenty-seven such
/// statements, one for each choice.
pub proof fn descriptions_state_the_axioms(
    mode: Mode,
    inputs: Seq<ExpressionView>,
    next: nat,
    selectors: Seq<usize>,
    query: Query,
    x: int,
    y: int,
    z: int,
)
    requires
        inputs.len() == arity(mode),
        inputs[inputs.len() - 1] == behind_selectors(selectors, ExpressionView::Advice(query)),
        0 <= x <= 2,
        0 <= y <= 2,
        0 <= z <= 2,
    ensures
        ({
            let cell_x = ExpressionView::Advice(rows_below(query, x));
            let cell_y = ExpressionView::Advice(rows_below(query, y));
            let cell_z = ExpressionView::Advice(rows_below(query, z));
            &&& lookup_stmt(mode, inputs, next) matches StmtView::EmitUnlessFalse { cond, body }
            &&& *body matches StmtView::Block(stmts)
            &&& stmts.len() == 4
            &&& stmts[3] matches StmtView::Block(axioms)
            &&& axioms.len() == 27
            &&& axioms[9 * x + 3 * y + z] == StmtView::Assert(
                BoolView::Implies(
                    Box::new(
                        BoolView::Det(OperandView::Expr(sum_of_cells(cell_x, cell_y, cell_z))),
                    ),
                    Box::new(
                        BoolView::And(
                            seq![
                                BoolView::Det(OperandView::Expr(cell_x)),
                                BoolView::Det(OperandView::Expr(cell_y)),
                                BoolView::Det(OperandView::Expr(cell_z)),
                            ],
                        ),
                    ),
                ),
            )
        }),
{
    advice_behind_selectors(selectors, query);
    let k = 9 * x + 3 * y + z;
    assert(k / 9 == x);
    assert((k / 3) % 3 == y);
    assert(k % 3 == z);
}

/// Where the spread value is no advice cell, a comment stands in place of the
/// axioms.
pub proof fn descriptions_without_a_cell_say_so(
    mode: Mode,
    inputs: Seq<ExpressionView>,
    next: nat,
)
    requires
        inputs.len() == arity(mode),
        forall|selectors: Seq<usize>, query: Query|
            inputs[inputs.len() - 1] != #[trigger] behind_selectors(
                selectors,
                ExpressionView::Advice(query),
            ),
    ensures
        ({
            &&& lookup_stmt(mode, inputs, next) matches StmtView::EmitUnlessFalse { cond, body }
            &&& *body matches StmtView::Block(stmts)
            &&& stmts.len() == 4
            &&& stmts[3] == StmtView::Comment("determinism axiom unavailable"@)
        }),
{
    let spread = inputs[inputs.len() - 1];
    if let Some(query) = spread.advice() {
        let selectors = selectors_before(spread, query);
        assert(spread == behind_selectors(selectors, ExpressionView::Advice(query)));
    }
}

/// A temporary has no determinism axioms, and an expression that is no advice
/// cell behind selectors has none either: comments say so.
pub proof fn axioms_are_stated_of_cells_only(spread: OperandView)
    ensures
        spread is Temp ==> determinism_stmt(spread) == StmtView::Comment(
            "no determinism axiom for temporary spread"@,
        ),
        spread matches OperandView::Expr(value) ==> (determinism_stmt(spread) is Comment <==> (
        forall|selectors: Seq<usize>, query: Query|
            value != #[trigger] behind_selectors(selectors, ExpressionView::Advice(query)))),
        spread matches OperandView::Expr(value) ==> determinism_stmt(spread) is Comment
            ==> determinism_stmt(spread) == StmtView::Comment("determinism axiom unavailable"@),
{
    if let OperandView::Expr(value) = spread {
        if let Some(query) = value.advice() {
            let selectors = selectors_before(value, query);
            assert(value == behind_selectors(selectors, ExpressionView::Advice(query)));
        } else {
            assert forall|selectors: Seq<usize>, query: Query|
                value != #[trigger] behind_selectors(
                    selectors,
                    ExpressionView::Advice(query),
                ) by {
                advice_behind_selectors(selectors, query);
            }
        }
    }
}

/// The determinism statement for an expression holds exactly where the axioms on
/// its cell do: always, where it is no cell behind selectors.
pub proof fn determinism_meaning(
    spread: ExpressionView,
    value: spec_fn(OperandView) -> nat,
    det: spec_fn(OperandView) -> bool,
    function: spec_fn(Seq<char>, nat) -> nat,
)
    ensures
        determinism_stmt(OperandView::Expr(spread)).holds(value, det, function) <==> axioms_hold(
            spread,
            det,
        ),
{
    let stmt = determinism_stmt(OperandView::Expr(spread));
    match spread.advice() {
        None => {
            assert forall|selectors: Seq<usize>, query: Query|
                spread != #[trigger] behind_selectors(
                    selectors,
                    ExpressionView::Advice(query),
                ) by {
                advice_behind_selectors(selectors, query);
            }
        },
        Some(query) => {
            let axioms = stmt->Block_0;
            assert forall|k: int| 0 <= k < 27 implies ((#[trigger] axioms[k]).holds(
                value,
                det,
                function,
            ) <==> axiom_holds(query, k / 9, (k / 3) % 3, k % 3, det)) by {
                axiom_meaning(query, k / 9, (k / 3) % 3, k % 3, value, det);
                assert(axioms[k] == StmtView::Assert(
                    determinism_axiom(query, k / 9, (k / 3) % 3, k % 3),
                ));
            }
            if stmt.holds(value, det, function) {
                assert forall|selectors: Seq<usize>, other: Query, x: int, y: int, z: int|
                    spread == #[trigger] behind_selectors(selectors, ExpressionView::Advice(other))
                        && 0 <= x <= 2 && 0 <= y <= 2 && 0 <= z <= 2 && det(
                        OperandView::Expr(
                            #[trigger] sum_of_cells(
                                ExpressionView::Advice(rows_below(other, x)),
                                ExpressionView::Advice(rows_below(other, y)),
                                ExpressionView::Advice(rows_below(other, z)),
                            ),
                        ),
                    ) implies {
                    &&& det(OperandView::Expr(ExpressionView::Advice(rows_below(other, x))))
                    &&& det(OperandView::Expr(ExpressionView::Advice(rows_below(other, y))))
                    &&& det(OperandView::Expr(ExpressionView::Advice(rows_below(other, z))))
                } by {
                    advice_behind_selectors(selectors, other);
                    assert(other == query);
                    let k = 9 * x + 3 * y + z;
                    assert(k / 9 == x);
                    assert((k / 3) % 3 == y);
                    assert(k % 3 == z);
                    assert(axioms[k].holds(value, det, function));
                    assert(axiom_holds(query, x, y, z, det));
                }
            }
            if axioms_hold(spread, det) {
                let selectors = selectors_before(spread, query);
                assert forall|k: int| 0 <= k < 27 implies (#[trigger] axioms[k]).holds(
                    value,
                    det,
                    function,
                ) by {
                    let (x, y, z) = (k / 9, (k / 3) % 3, k % 3);
                    assert(spread == behind_selectors(selectors, ExpressionView::Advice(query)));
                    let sum = sum_of_cells(
                        ExpressionView::Advice(rows_below(query, x)),
                        ExpressionView::Advice(rows_below(query, y)),
                        ExpressionView::Advice(rows_below(query, z)),
                    );
                    assert(axiom_holds(query, x, y, z, det));
                }
            }
        },
    }
}

/// The axiom on three of the cells at and below the one that `query` reads holds.
spec fn axiom_holds(
    query: Query,
    x: int,
    y: int,
    z: int,
    det: spec_fn(OperandView) -> bool,
) -> bool {
    let cell_x = ExpressionView::Advice(rows_below(query, x));
    let cell_y = ExpressionView::Advice(rows_below(query, y));
    let cell_z = ExpressionView::Advice(rows_below(query, z));
    det(OperandView::Expr(sum_of_cells(cell_x, cell_y, cell_z))) ==> det(OperandView::Expr(cell_x))
        && det(OperandView::Expr(cell_y)) && det(OperandView::Expr(cell_z))
}

proof fn axiom_meaning(
    query: Query,
    x: int,
    y: int,
    z: int,
    value: spec_fn(OperandView) -> nat,
    det: spec_fn(OperandView) -> bool,
)
    ensures
        determinism_axiom(query, x, y, z).holds(value, det) <==> axiom_holds(query, x, y, z, det),
{
    reveal_with_fuel(BoolView::holds, 3);
    let cell_x = ExpressionView::Advice(rows_below(query, x));
    let cell_y = ExpressionView::Advice(rows_below(query, y));
    let cell_z = ExpressionView::Advice(rows_below(query, z));
    assert(cell_x == cell_below(query, x));
    assert(weighted_sum(cell_x, cell_y, cell_z) == sum_of_cells(cell_x, cell_y, cell_z));
    let each = seq![
        BoolView::Det(OperandView::Expr(cell_x)),
        BoolView::Det(OperandView::Expr(cell_y)),
        BoolView::Det(OperandView::Expr(cell_z)),
    ];
    let all = BoolView::And(each);
    assert(all->And_0 == each);
    assert(determinism_axiom(query, x, y, z) == BoolView::Implies(
        Box::new(BoolView::Det(OperandView::Expr(sum_of_cells(cell_x, cell_y, cell_z)))),
        Box::new(all),
    ));
    if all.holds(value, det) {
        assert(all->And_0[0].holds(value, det));
        assert(all->And_0[1].holds(value, det));
        assert(all->And_0[2].holds(value, det));
    }
}

/// A call holds exactly where the output, and the temporary that receives the
/// result, have the value that the callee gives back for the input. The
/// temporary is the output itself, where that is one.
pub proof fn call_meaning(
    callee: Seq<char>,
    input: OperandView,
    output: OperandView,
    next: nat,
    value: spec_fn(OperandView) -> nat,
    det: spec_fn(OperandView) -> bool,
    function: spec_fn(Seq<char>, nat) -> nat,
)
    ensures
        call_stmt(callee, input, output, next).holds(value, det, function) <==> value(output)
            == function(callee, value(input)) && (output is Expr ==> value(OperandView::Temp(next))
            == function(callee, value(input))),
{
    reveal_with_fuel(StmtView::holds, 2);
    if output is Expr {
        let stmts = seq![
            StmtView::Call { callee, inputs: seq![input], outputs: seq![next] },
            StmtView::Eq(output, OperandView::Temp(next)),
        ];
        let block = StmtView::Block(stmts);
        assert(block == call_stmt(callee, input, output, next));
        assert(block->Block_0 == stmts);
        if block.holds(value, det, function) {
            assert(block->Block_0[0].holds(value, det, function));
            assert(block->Block_0[1].holds(value, det, function));
        }
    }
}

/// What the description of a lookup means. It holds exactly where the row is the
/// zero row, or the parts of the row lie within the bounds of the tag, the
/// spread value is what `Spread` gives back for the dense value, the dense value
/// is what `Unspread` gives back for the spread value, and the determinism
/// axioms hold. Two temporaries serve it: where the dense value is an input they
/// hold what the two calls gave back; else the first is the dense value and the
/// second holds what `Spread` gave back.
pub proof fn description_meaning(
    mode: Mode,
    inputs: Seq<ExpressionView>,
    next: nat,
    value: spec_fn(OperandView) -> nat,
    cell: spec_fn(ExpressionView) -> nat,
    det: spec_fn(OperandView) -> bool,
    function: spec_fn(Seq<char>, nat) -> nat,
)
    requires
        inputs.len() == arity(mode),
        evaluates(value, cell),
    ensures
        ({
            let tag = if inputs.len() == 1 {
                13
            } else {
                inputs[0].eval(cell)
            };
            let dense = if inputs.len() == 3 {
                inputs[1].eval(cell)
            } else {
                value(OperandView::Temp(next))
            };
            let spread = inputs[inputs.len() - 1].eval(cell);
            let zero_row = spread == 0 && (inputs.len() == 3 ==> dense == 0);
            let within_bounds = tag == 0 && dense == 0 && spread == 0 || 1 <= tag <= 13 && dense
                < power(2, tag) && 7 * spread < power(8, tag);
            let temps = if inputs.len() == 3 {
                value(OperandView::Temp(next)) == spread && value(OperandView::Temp(next + 1))
                    == dense
            } else {
                value(OperandView::Temp(next + 1)) == spread
            };
            lookup_stmt(mode, inputs, next).holds(value, det, function) <==> zero_row || {
                &&& within_bounds
                &&& spread == function("Spread"@, dense)
                &&& dense == function("Unspread"@, spread)
                &&& temps
                &&& axioms_hold(inputs[inputs.len() - 1], det)
            }
        }),
{
    reveal_with_fuel(StmtView::holds, 2);
    parts_are_distinct_inputs(mode, inputs, next);
    let tag = tag_part(mode, inputs);
    let dense = dense_part(mode, inputs, next);
    let spread = OperandView::Expr(spread_input(mode, inputs));
    assert(value(spread) == inputs[inputs.len() - 1].eval(cell));
    if inputs.len() == 1 {
        assert(value(constant(13)) == 13);
    } else {
        assert(value(OperandView::Expr(inputs[0])) == inputs[0].eval(cell));
    }
    if inputs.len() == 3 {
        assert(value(OperandView::Expr(inputs[1])) == inputs[1].eval(cell));
    }
    bounds_meaning(tag, dense, spread, value, cell, det);
    max_spread_is_the_geometric_sum(value(tag));
    emission_meaning(dense, spread, value, cell, det);
    determinism_meaning(spread_input(mode, inputs), value, det, function);
    let first = if inputs.len() == 3 {
        next
    } else {
        next + 1
    };
    call_meaning("Spread"@, dense, spread, first, value, det, function);
    call_meaning("Unspread"@, spread, dense, first + 1, value, det, function);
    let whole = lookup_stmt(mode, inputs, next);
    let body = *whole->body;
    let stmts = body->Block_0;
    assert(stmts.len() == 4);
    assert(stmts[0] == StmtView::Assert(bounds_condition(tag, dense, spread)));
    assert(stmts[1] == call_stmt("Spread"@, dense, spread, first));
    assert(stmts[2] == call_stmt("Unspread"@, spread, dense, first + 1));
    assert(stmts[3] == determinism_stmt(spread));
    assert(stmts[0].holds(value, det, function) <==> bounds_condition(tag, dense, spread).holds(
        value,
        det,
    ));
    assert(whole.holds(value, det, function) <==> (emission_condition(dense, spread).holds(
        value,
        det,
    ) ==> body.holds(value, det, function)));
    assert(body.holds(value, det, function) <==> stmts[0].holds(value, det, function)
        && stmts[1].holds(value, det, function) && stmts[2].holds(value, det, function)
        && stmts[3].holds(value, det, function)) by {
        if body.holds(value, det, function) {
            assert(body->Block_0[0].holds(value, det, function));
            assert(body->Block_0[1].holds(value, det, function));
            assert(body->Block_0[2].holds(value, det, function));
            assert(body->Block_0[3].holds(value, det, function));
        }
    }
}

/// The description of a lookup is a block of four statements that is left out
/// only where its condition folds to false: the bounds, with one alternative for
/// each tag up to thirteen, in order; the call of `Spread` and the call of
/// `Unspread`, each into a temporary that has to equal its output, or straight
/// into its output; and the axioms.
pub proof fn descriptions_are_built_in_order(mode: Mode, inputs: Seq<ExpressionView>, next: nat)
    requires
        inputs.len() == arity(mode),
    ensures
        ({
            let zero = OperandView::Expr(ExpressionView::Constant(0));
            let tag = row_tag(mode, inputs);
            let dense = row_dense(mode, inputs, next);
            let spread = row_spread(inputs);
            let no_spread = BoolView::Eq(spread, zero);
            let into = |callee: Seq<char>, input: OperandView, output: OperandView, temp: nat|
                StmtView::Block(
                    seq![
                        StmtView::Call { callee, inputs: seq![input], outputs: seq![temp] },
                        StmtView::Eq(output, OperandView::Temp(temp)),
                    ],
                );
            &&& lookup_stmt(mode, inputs, next) matches StmtView::EmitUnlessFalse { cond, body }
            &&& *body matches StmtView::Block(stmts)
            &&& stmts.len() == 4
            &&& stmts[0] matches StmtView::Assert(BoolView::Or(rows))
            &&& rows.len() == 14
            &&& rows[0] == BoolView::And(
                seq![BoolView::Eq(tag, zero), BoolView::Eq(dense, zero), BoolView::Eq(spread, zero)],
            )
            &&& forall|bits: int|
                1 <= bits <= 13 ==> #[trigger] rows[bits] == BoolView::And(
                    seq![
                        BoolView::Eq(tag, OperandView::Expr(ExpressionView::Constant(bits as nat))),
                        BoolView::Lt(
                            dense,
                            OperandView::Expr(ExpressionView::Constant(power(2, bits as nat))),
                        ),
                        BoolView::Le(
                            spread,
                            OperandView::Expr(
                                ExpressionView::Constant(((power(8, bits as nat) - 1) / 7) as nat),
                            ),
                        ),
                    ],
                )
            &&& if inputs.len() == 3 {
                &&& cond == BoolView::Not(
                    Box::new(BoolView::And(seq![no_spread, BoolView::Eq(dense, zero)])),
                )
                &&& stmts[1] == into("Spread"@, dense, spread, next)
                &&& stmts[2] == into("Unspread"@, spread, dense, next + 1)
            } else {
                &&& cond == BoolView::Not(Box::new(no_spread))
                &&& stmts[1] == into("Spread"@, dense, spread, next + 1)
                &&& stmts[2] == (StmtView::Call {
                    callee: "Unspread"@,
                    inputs: seq![spread],
                    outputs: seq![next],
                })
            }
        }),
{
    parts_are_distinct_inputs(mode, inputs, next);
    let rows = bounds_condition(
        tag_part(mode, inputs),
        dense_part(mode, inputs, next),
        OperandView::Expr(spread_input(mode, inputs)),
    )->Or_0;
    assert forall|bits: int| 0 <= bits < 14 implies #[trigger] rows[bits] == row_bound(
        tag_part(mode, inputs),
        dense_part(mode, inputs, next),
        OperandView::Expr(spread_input(mode, inputs)),
        bits as nat,
    ) by {}
}

/// The model of a lookup holds its name, its index and the models of its inputs,
/// in order; that of an error is of its kind and holds its name.
pub proof fn lookup_models_are_faithful(lookup: Lookup, name: String)
    ensures
        lookup@.name == lookup.name@,
        lookup@.idx == lookup.idx,
        lookup@.inputs.len() == lookup.inputs@.len(),
        forall|i: int|
            0 <= i < lookup.inputs@.len() ==> #[trigger] lookup@.inputs[i] == lookup.inputs@[i]@,
        Error::Inputs@ == ErrorView::Inputs,
        Error::Tag@ == ErrorView::Tag,
        Error::Name(name)@ == ErrorView::Name(name@),
{
}

/// A lookup takes a temporary for its dense value exactly where that is not an
/// input, and a call takes one exactly where its output is not a temporary.
pub proof fn temporaries_are_taken_where_needed(mode: Mode, output: OperandView)
    ensures
        part_temps(mode) == (if arity(mode) == 3 {
            0nat
        } else {
            1nat
        }),
        call_temps(output) == (if output is Temp {
            0nat
        } else {
            1nat
        }),
{
}

/// An expression is asked for rows below it only where it is an advice cell
/// behind selectors: then the rotation two rows below has to be a number that a
/// rotation can be.
pub proof fn rows_below_are_asked_of_cells_only(value: ExpressionView)
    ensures
        has_rows_below(value) <==> forall|selectors: Seq<usize>, query: Query|
            value == #[trigger] behind_selectors(selectors, ExpressionView::Advice(query))
                ==> query.rotation + 2 <= i32::MAX,
{
    if let Some(query) = value.advice() {
        let selectors = selectors_before(value, query);
        assert(value == behind_selectors(selectors, ExpressionView::Advice(query)));
    }
    if has_rows_below(value) {
        assert forall|selectors: Seq<usize>, query: Query|
            value == #[trigger] behind_selectors(
                selectors,
                ExpressionView::Advice(query),
            ) implies query.rotation + 2 <= i32::MAX by {
            advice_behind_selectors(selectors, query);
        }
    }
}

} // verus!
