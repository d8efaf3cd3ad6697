//! What the descriptions of lookups mean.

use vstd::prelude::*;

use crate::expression::{const_value_is_the_value, selectors_enabled, ExpressionView, Query};
use crate::ir::{evaluates, BoolView, OperandView, StmtView};
use crate::lookup_callbacks::{
    bounds_condition, call_stmt, cell_below, constant, dense_part, determinism_axiom,
    determinism_stmt, emission_condition, has_rows_below, lookup_stmt, mode_of, part_temps, row_bound,
    spread_input, tag_part, verdict, weighted_sum, ErrorView, LookupView, Mode,
};
use crate::scalar::{field_add, field_mul};
use crate::spread::{
    max_spread, power, powers_are_small, spread, spread_is_bounded, spread_is_injective,
    weighted_sum_determines_parts,
};

verus! {

/// A row of the spread table: a dense value of at most `tag` bits and its
/// spread form. The longest dense values have thirteen bits.
pub open spec fn is_table_row(tag: nat, dense: nat, spread_value: nat) -> bool {
    &&& tag <= 13
    &&& dense < power(2, tag)
    &&& spread_value == spread(dense)
}

/// The values lie within the bounds of one of the tags.
pub open spec fn within_bounds(tag: nat, dense: nat, spread_value: nat) -> bool {
    ||| tag == 0 && dense == 0 && spread_value == 0
    ||| 1 <= tag <= 13 && dense < power(2, tag) && spread_value <= max_spread(tag)
}

proof fn row_bound_meaning(
    tag: OperandView,
    dense: OperandView,
    spread_value: OperandView,
    bits: nat,
    value: spec_fn(OperandView) -> nat,
    cell: spec_fn(ExpressionView) -> nat,
    det: spec_fn(OperandView) -> bool,
)
    requires
        evaluates(value, cell),
    ensures
        row_bound(tag, dense, spread_value, bits).holds(value, det) <==> {
            if bits == 0 {
                value(tag) == 0 && value(dense) == 0 && value(spread_value) == 0
            } else {
                value(tag) == bits && value(dense) < power(2, bits) && value(spread_value)
                    <= max_spread(bits)
            }
        },
{
    reveal_with_fuel(BoolView::holds, 2);
    let all = row_bound(tag, dense, spread_value, bits)->And_0;
    assert(value(constant(0)) == 0);
    assert(value(constant(bits)) == bits);
    assert(value(constant(power(2, bits))) == power(2, bits));
    assert(value(constant(max_spread(bits))) == max_spread(bits));
    if row_bound(tag, dense, spread_value, bits).holds(value, det) {
        assert(all[0].holds(value, det));
        assert(all[1].holds(value, det));
        assert(all[2].holds(value, det));
    }
}

/// The bounds of a lookup hold exactly where the values lie within the bounds
/// of one of the tags.
pub proof fn bounds_meaning(
    tag: OperandView,
    dense: OperandView,
    spread_value: OperandView,
    value: spec_fn(OperandView) -> nat,
    cell: spec_fn(ExpressionView) -> nat,
    det: spec_fn(OperandView) -> bool,
)
    requires
        evaluates(value, cell),
    ensures
        bounds_condition(tag, dense, spread_value).holds(value, det) <==> within_bounds(
            value(tag),
            value(dense),
            value(spread_value),
        ),
{
    let any = bounds_condition(tag, dense, spread_value)->Or_0;
    assert forall|i: int| 0 <= i < 14 implies ((#[trigger] any[i]).holds(value, det) <==> {
        if i == 0 {
            value(tag) == 0 && value(dense) == 0 && value(spread_value) == 0
        } else {
            value(tag) == i && value(dense) < power(2, i as nat) && value(spread_value)
                <= max_spread(i as nat)
        }
    }) by {
        row_bound_meaning(tag, dense, spread_value, i as nat, value, cell, det);
    }
    if within_bounds(value(tag), value(dense), value(spread_value)) {
        assert(any[value(tag) as int].holds(value, det));
    }
}

/// The bounds of a lookup let every row of the table pass.
pub proof fn bounds_accept_table_rows(
    tag: OperandView,
    dense: OperandView,
    spread_value: OperandView,
    value: spec_fn(OperandView) -> nat,
    cell: spec_fn(ExpressionView) -> nat,
    det: spec_fn(OperandView) -> bool,
)
    requires
        evaluates(value, cell),
        is_table_row(value(tag), value(dense), value(spread_value)),
    ensures
        bounds_condition(tag, dense, spread_value).holds(value, det),
{
    bounds_meaning(tag, dense, spread_value, value, cell, det);
    spread_is_bounded(value(dense), value(tag));
    assert(power(2, 0) == 1);
}

/// How many bits the dense value of a lookup may have, where its mode says so.
pub open spec fn dense_bits(mode: Mode) -> Option<nat> {
    match mode {
        Mode::Byte => Some(8),
        Mode::Any => Some(13),
        Mode::Tag12 => Some(12),
        Mode::Tagged => None,
    }
}

/// Where the mode of a lookup says how many bits its dense value may have, the
/// bounds hold exactly where the dense value and the spread value have no
/// more.
pub proof fn mode_fixes_the_bounds(
    lookup: LookupView,
    mode: Mode,
    next: nat,
    value: spec_fn(OperandView) -> nat,
    cell: spec_fn(ExpressionView) -> nat,
    det: spec_fn(OperandView) -> bool,
)
    requires
        verdict(lookup) == Ok::<Mode, ErrorView>(mode),
        dense_bits(mode) is Some,
        evaluates(value, cell),
        selectors_enabled(cell),
    ensures
        ({
            let bits = dense_bits(mode)->0;
            let dense = dense_part(mode, lookup.inputs, next);
            let spread_value = OperandView::Expr(spread_input(mode, lookup.inputs));
            bounds_condition(tag_part(mode, lookup.inputs), dense, spread_value).holds(value, det)
                <==> value(dense) < power(2, bits) && value(spread_value) <= max_spread(bits)
        }),
{
    let tag = tag_part(mode, lookup.inputs);
    let dense = dense_part(mode, lookup.inputs, next);
    let spread_value = OperandView::Expr(spread_input(mode, lookup.inputs));
    bounds_meaning(tag, dense, spread_value, value, cell, det);
    if mode == Mode::Any {
        assert(value(constant(13)) == 13);
    } else {
        const_value_is_the_value(lookup.inputs[0], cell);
        assert(value(OperandView::Expr(lookup.inputs[0])) == lookup.inputs[0].eval(cell));
    }
}

/// A lookup is described exactly where the row that it looks for is not the
/// zero row: where the dense value is a temporary, its spread form decides.
pub proof fn emission_meaning(
    dense: OperandView,
    spread_value: OperandView,
    value: spec_fn(OperandView) -> nat,
    cell: spec_fn(ExpressionView) -> nat,
    det: spec_fn(OperandView) -> bool,
)
    requires
        evaluates(value, cell),
    ensures
        emission_condition(dense, spread_value).holds(value, det) <==> {
            value(spread_value) != 0 || (dense is Expr && value(dense) != 0)
        },
{
    reveal_with_fuel(BoolView::holds, 3);
    assert(value(constant(0)) == 0);
    if dense is Expr {
        let zero = seq![
            BoolView::Eq(spread_value, constant(0)),
            BoolView::Eq(dense, constant(0)),
        ];
        let both = BoolView::And(zero);
        assert(both->And_0 == zero);
        if both.holds(value, det) {
            assert(both->And_0[0].holds(value, det));
            assert(both->And_0[1].holds(value, det));
        }
    }
}

/// On the rows of the table, a lookup is left out exactly where the dense
/// value is zero.
pub proof fn emission_skips_the_zero_row(
    dense: OperandView,
    spread_value: OperandView,
    value: spec_fn(OperandView) -> nat,
    cell: spec_fn(ExpressionView) -> nat,
    det: spec_fn(OperandView) -> bool,
)
    requires
        evaluates(value, cell),
        value(spread_value) == spread(value(dense)),
    ensures
        emission_condition(dense, spread_value).holds(value, det) <==> value(dense) != 0,
{
    emission_meaning(dense, spread_value, value, cell, det);
    assert(spread(0) == 0);
    if spread(value(dense)) == 0 {
        spread_is_injective(value(dense), 0);
    }
}

/// The value is the spread form of a number of at most thirteen bits.
pub open spec fn is_spread_form(spread_value: nat) -> bool {
    exists|dense: nat| dense < power(2, 13) && spread_value == #[trigger] spread(dense)
}

/// The cell that `query` reads and the two cells below it hold spread forms.
pub open spec fn holds_spread_forms(query: Query, cell: spec_fn(ExpressionView) -> nat) -> bool {
    forall|rows: int| 0 <= rows <= 2 ==> is_spread_form(#[trigger] cell(cell_below(query, rows)))
}

proof fn weighted_sum_value(
    query: Query,
    x: int,
    y: int,
    z: int,
    cell: spec_fn(ExpressionView) -> nat,
)
    requires
        0 <= x <= 2,
        0 <= y <= 2,
        0 <= z <= 2,
        holds_spread_forms(query, cell),
    ensures
        weighted_sum(cell_below(query, x), cell_below(query, y), cell_below(query, z)).eval(cell)
            == cell(cell_below(query, x)) + 2 * cell(cell_below(query, y)) + 4 * cell(
            cell_below(query, z),
        ),
{
    reveal_with_fuel(ExpressionView::eval, 4);
    powers_are_small(13);
    assert forall|rows: int| 0 <= rows <= 2 implies #[trigger] cell(cell_below(query, rows))
        <= 549755813888 by {
        assert(is_spread_form(cell(cell_below(query, rows))));
        let dense = choose|dense: nat|
            dense < power(2, 13) && cell(cell_below(query, rows)) == #[trigger] spread(dense);
        spread_is_bounded(dense, 13);
    }
    let vx = cell(cell_below(query, x));
    let vy = cell(cell_below(query, y));
    let vz = cell(cell_below(query, z));
    assert(field_mul(2, vy) == 2 * vy);
    assert(field_mul(4, vz) == 4 * vz);
    assert(field_add(vx, 2 * vy) == vx + 2 * vy);
    assert(field_add(vx + 2 * vy, 4 * vz) == vx + 2 * vy + 4 * vz);
}

/// The determinism axioms are sound. Take two assignments under which the cells
/// hold spread forms, and call an operand deterministic where both give it the
/// same value: the axioms hold.
pub proof fn determinism_axioms_are_sound(
    query: Query,
    x: int,
    y: int,
    z: int,
    value: spec_fn(OperandView) -> nat,
    cell: spec_fn(ExpressionView) -> nat,
    other_value: spec_fn(OperandView) -> nat,
    other_cell: spec_fn(ExpressionView) -> nat,
)
    requires
        0 <= x <= 2,
        0 <= y <= 2,
        0 <= z <= 2,
        evaluates(value, cell),
        evaluates(other_value, other_cell),
        holds_spread_forms(query, cell),
        holds_spread_forms(query, other_cell),
    ensures
        determinism_axiom(query, x, y, z).holds(
            value,
            |operand: OperandView| value(operand) == other_value(operand),
        ),
{
    let det = |operand: OperandView| value(operand) == other_value(operand);
    let (cx, cy, cz) = (cell_below(query, x), cell_below(query, y), cell_below(query, z));
    let total = weighted_sum(cx, cy, cz);
    weighted_sum_value(query, x, y, z, cell);
    weighted_sum_value(query, x, y, z, other_cell);
    reveal_with_fuel(BoolView::holds, 3);
    assert(value(OperandView::Expr(cx)) == cell(cx));
    assert(value(OperandView::Expr(cy)) == cell(cy));
    assert(value(OperandView::Expr(cz)) == cell(cz));
    assert(other_value(OperandView::Expr(cx)) == other_cell(cx));
    assert(other_value(OperandView::Expr(cy)) == other_cell(cy));
    assert(other_value(OperandView::Expr(cz)) == other_cell(cz));
    if value(OperandView::Expr(total)) == other_value(OperandView::Expr(total)) {
        let dx = choose|d: nat| d < power(2, 13) && cell(cx) == #[trigger] spread(d);
        let dy = choose|d: nat| d < power(2, 13) && cell(cy) == #[trigger] spread(d);
        let dz = choose|d: nat| d < power(2, 13) && cell(cz) == #[trigger] spread(d);
        assert(is_spread_form(cell(cx)) && is_spread_form(cell(cy)) && is_spread_form(cell(cz)));
        let ox = choose|d: nat| d < power(2, 13) && other_cell(cx) == #[trigger] spread(d);
        let oy = choose|d: nat| d < power(2, 13) && other_cell(cy) == #[trigger] spread(d);
        let oz = choose|d: nat| d < power(2, 13) && other_cell(cz) == #[trigger] spread(d);
        assert(is_spread_form(other_cell(cx)) && is_spread_form(other_cell(cy)) && is_spread_form(
            other_cell(cz),
        ));
        weighted_sum_determines_parts(dx, dy, dz, ox, oy, oz);
    }
}

proof fn bounds_temps(
    tag: OperandView,
    dense: OperandView,
    spread_value: OperandView,
    low: nat,
    high: nat,
)
    requires
        tag.temps_within(low, high),
        dense.temps_within(low, high),
        spread_value.temps_within(low, high),
    ensures
        bounds_condition(tag, dense, spread_value).temps_within(low, high),
{
    let any = bounds_condition(tag, dense, spread_value)->Or_0;
    assert forall|i: int| 0 <= i < any.len() implies (#[trigger] any[i]).temps_within(
        low,
        high,
    ) by {
        reveal_with_fuel(BoolView::temps_within, 2);
        assert(any[i] == row_bound(tag, dense, spread_value, i as nat));
    }
}

proof fn emission_temps(dense: OperandView, spread_value: OperandView, low: nat, high: nat)
    requires
        dense.temps_within(low, high),
        spread_value.temps_within(low, high),
    ensures
        emission_condition(dense, spread_value).temps_within(low, high),
{
    reveal_with_fuel(BoolView::temps_within, 3);
}

proof fn determinism_temps(value: ExpressionView, low: nat, high: nat)
    ensures
        determinism_stmt(OperandView::Expr(value)).temps_within(low, high),
{
    if let Some(query) = value.advice() {
        let stmts = determinism_stmt(OperandView::Expr(value))->Block_0;
        assert forall|k: int| 0 <= k < stmts.len() implies (#[trigger] stmts[k]).temps_within(
            low,
            high,
        ) by {
            reveal_with_fuel(BoolView::temps_within, 3);
            let condition = determinism_axiom(query, k / 9, (k / 3) % 3, k % 3);
            assert(stmts[k] == StmtView::Assert(condition));
            assert(condition.temps_within(low, high));
        }
    }
}

proof fn call_stmt_temps(
    callee: Seq<char>,
    input: OperandView,
    output: OperandView,
    next: nat,
    low: nat,
    high: nat,
)
    requires
        input.temps_within(low, high),
        output.temps_within(low, high),
        output is Expr ==> low <= next < high,
    ensures
        call_stmt(callee, input, output, next).temps_within(low, high),
{
    reveal_with_fuel(StmtView::temps_within, 2);
}

/// The description of a lookup speaks of no temporaries but the two that were
/// drawn for it. So the descriptions of two lookups never share one.
pub proof fn descriptions_use_their_own_temps(
    mode: Mode,
    inputs: Seq<ExpressionView>,
    next: nat,
)
    ensures
        lookup_stmt(mode, inputs, next).temps_within(next, next + 2),
{
    let (low, high) = (next, next + 2);
    let tag = tag_part(mode, inputs);
    let dense = dense_part(mode, inputs, next);
    let spread_value = OperandView::Expr(spread_input(mode, inputs));
    let after_parts = next + part_temps(mode);
    bounds_temps(tag, dense, spread_value, low, high);
    emission_temps(dense, spread_value, low, high);
    determinism_temps(spread_input(mode, inputs), low, high);
    call_stmt_temps("Spread"@, dense, spread_value, after_parts, low, high);
    call_stmt_temps("Unspread"@, spread_value, dense, after_parts + 1, low, high);
    let body = *lookup_stmt(mode, inputs, next)->body;
    let stmts = body->Block_0;
    assert forall|i: int| 0 <= i < stmts.len() implies (#[trigger] stmts[i]).temps_within(
        low,
        high,
    ) by {
        assert(StmtView::Assert(bounds_condition(tag, dense, spread_value)).temps_within(low, high));
    }
    assert(body.temps_within(low, high));
}

/// The end of the name of the lookup of one of the six limbs.
pub open spec fn limb(i: int) -> Seq<char> {
    if i == 0 {
        "limb 0"@
    } else if i == 1 {
        "limb 1"@
    } else if i == 2 {
        "limb 2"@
    } else if i == 3 {
        "limb 3"@
    } else if i == 4 {
        "limb 4"@
    } else {
        "limb 5"@
    }
}

/// The rules that give a lookup its mode never overlap: a name that begins as
/// one of the two kinds of lookups does not begin as the other, and no name
/// ends as two of the limbs do. The one name that is given in full ends as the
/// limb three does.
pub proof fn rules_do_not_overlap(name: Seq<char>, i: int, j: int)
    requires
        0 <= i < j <= 5,
    ensures
        !("spread byte lookup"@.is_prefix_of(name) && "decomposition lookup"@.is_prefix_of(name)),
        !(limb(i).is_suffix_of(name) && limb(j).is_suffix_of(name)),
        mode_of(name) == Some(Mode::Tag12) ==> limb(3).is_suffix_of(name),
{
    reveal_strlit("spread byte lookup");
    reveal_strlit("decomposition lookup");
    reveal_strlit("decomposition lookup: limb 3");
    reveal_strlit("limb 0");
    reveal_strlit("limb 1");
    reveal_strlit("limb 2");
    reveal_strlit("limb 3");
    reveal_strlit("limb 4");
    reveal_strlit("limb 5");
    if "spread byte lookup"@.is_prefix_of(name) && "decomposition lookup"@.is_prefix_of(name) {
        assert(name.subrange(0, 18)[0] == 's');
        assert(name.subrange(0, 20)[0] == 'd');
    }
    if limb(i).is_suffix_of(name) && limb(j).is_suffix_of(name) {
        assert(name.subrange(name.len() - 6, name.len() as int)[5] == limb(i)[5]);
        assert(name.subrange(name.len() - 6, name.len() as int)[5] == limb(j)[5]);
    }
    if name == "decomposition lookup: limb 3"@ {
        assert("limb 3"@ =~= name.subrange(name.len() - 6, name.len() as int));
    }
}

/// A selector before the spread value neither changes the determinism axioms
/// nor appears in them.
pub proof fn selector_does_not_change_the_axioms(
    selector: ExpressionView,
    value: ExpressionView,
)
    requires
        selector is Selector,
    ensures
        ({
            let gated = ExpressionView::Product(Box::new(selector), Box::new(value));
            &&& determinism_stmt(OperandView::Expr(gated)) == determinism_stmt(
                OperandView::Expr(value),
            )
            &&& has_rows_below(gated) == has_rows_below(value)
        }),
{
    let gated = ExpressionView::Product(Box::new(selector), Box::new(value));
    assert(gated.advice() == value.advice());
}

/// The expression `value` behind selectors, the first of them outermost.
pub open spec fn behind_selectors(selectors: Seq<usize>, value: ExpressionView) -> ExpressionView
    decreases selectors.len(),
{
    if selectors.len() == 0 {
        value
    } else {
        ExpressionView::Product(
            Box::new(ExpressionView::Selector(selectors.first())),
            Box::new(behind_selectors(selectors.drop_first(), value)),
        )
    }
}

/// Selectors before the spread value, however many, neither change the
/// determinism axioms nor appear in them.
pub proof fn selectors_do_not_change_the_axioms(selectors: Seq<usize>, value: ExpressionView)
    ensures
        determinism_stmt(OperandView::Expr(behind_selectors(selectors, value)))
            == determinism_stmt(OperandView::Expr(value)),
        has_rows_below(behind_selectors(selectors, value)) == has_rows_below(value),
    decreases selectors.len(),
{
    if selectors.len() != 0 {
        let rest = selectors.drop_first();
        selectors_do_not_change_the_axioms(rest, value);
        selector_does_not_change_the_axioms(
            ExpressionView::Selector(selectors.first()),
            behind_selectors(rest, value),
        );
    }
}

} // verus!
