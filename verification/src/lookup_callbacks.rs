//! What a lookup into the spread table means, told to the extraction backends.
//!
//! A row of the table holds a tag, a dense value and its spread form. The tag
//! is the bit length of the dense value; the spread form holds the same bits
//! as the dense value, three places apart.

use vstd::prelude::*;
use vstd::string::StringExecFns;

use crate::expression::{Expression, ExpressionView, Query};
use crate::ir::{
    all_of, any_of, block_of, call_of, BoolExpr, BoolView, ExprOrTemp, OperandView, Stmt, StmtView,
    Temps,
};
use crate::scalar::Scalar;
use crate::spread::{max_spread, power, powers_are_small};
use crate::text::{ends_with, same_text, starts_with};

verus! {

/// Describes the lookups of the SHA3 circuits.
#[derive(Debug, Default)]
pub struct Sha3LookupCallbacks;

/// The callbacks for the lookups of the SHA3 circuits.
pub fn sha3_lookup_callbacks() -> (callbacks: Sha3LookupCallbacks)
    ensures
        callbacks == Sha3LookupCallbacks,
{
    Sha3LookupCallbacks
}

/// What a lookup says of the row that it looks for.
#[derive(Debug, Clone, Copy, PartialEq, Eq, Structural)]
pub enum Mode {
    /// Inputs: the tag 8, the dense value, the spread value.
    Byte,
    /// Input: the spread value. The dense value has any length.
    Any,
    /// Inputs: the tag 12, the spread value.
    Tag12,
    /// Inputs: a tag, the spread value.
    Tagged,
}

/// A lookup argument.
#[derive(Debug)]
pub struct Lookup {
    pub name: String,
    pub idx: usize,
    pub inputs: Vec<Expression>,
}

/// The model of a lookup argument.
pub struct LookupView {
    pub name: Seq<char>,
    pub idx: usize,
    pub inputs: Seq<ExpressionView>,
}

impl View for Lookup {
    type V = LookupView;

    open spec fn view(&self) -> LookupView {
        LookupView {
            name: self.name@,
            idx: self.idx,
            inputs: self.inputs@.map_values(|e: Expression| e@),
        }
    }
}

/// Why a lookup cannot be described.
#[derive(Debug, PartialEq, Eq)]
pub enum Error {
    /// It has more or fewer inputs than its name asks for.
    Inputs,
    /// Its tag is not the constant that its name asks for.
    Tag,
    /// Its name is not known.
    Name(String),
}

/// The model of an error.
pub enum ErrorView {
    Inputs,
    Tag,
    Name(Seq<char>),
}

impl View for Error {
    type V = ErrorView;

    open spec fn view(&self) -> ErrorView {
        match self {
            Error::Inputs => ErrorView::Inputs,
            Error::Tag => ErrorView::Tag,
            Error::Name(name) => ErrorView::Name(name@),
        }
    }
}

impl ErrorView {
    /// What a user is told.
    pub open spec fn message(self) -> Seq<char> {
        match self {
            ErrorView::Inputs => "unexpected lookup inputs"@,
            ErrorView::Tag => "unexpected lookup tag"@,
            ErrorView::Name(name) => "no callback for lookup "@ + name,
        }
    }
}

impl Error {
    /// What a user is told.
    pub fn message(&self) -> (message: String)
        ensures
            message@ == self@.message(),
    {
        match self {
            Error::Inputs => "unexpected lookup inputs".to_owned(),
            Error::Tag => "unexpected lookup tag".to_owned(),
            Error::Name(name) => {
                let mut message = "no callback for lookup ".to_owned();
                message.append(name.as_str());
                message
            },
        }
    }
}

/// The mode of the lookup that is called `name`.
pub open spec fn mode_of(name: Seq<char>) -> Option<Mode> {
    let decomposition = "decomposition lookup"@.is_prefix_of(name);
    if "spread byte lookup"@.is_prefix_of(name) {
        Some(Mode::Byte)
    } else if decomposition && ("limb 0"@.is_suffix_of(name) || "limb 1"@.is_suffix_of(name)
        || "limb 2"@.is_suffix_of(name)) {
        Some(Mode::Any)
    } else if name == "decomposition lookup: limb 3"@ {
        Some(Mode::Tag12)
    } else if decomposition && ("limb 4"@.is_suffix_of(name) || "limb 5"@.is_suffix_of(name)) {
        Some(Mode::Tagged)
    } else {
        None
    }
}

impl Mode {
    /// How many inputs a lookup has.
    pub open spec fn input_count(self) -> nat {
        match self {
            Mode::Byte => 3,
            Mode::Any => 1,
            Mode::Tag12 | Mode::Tagged => 2,
        }
    }

    /// The tag that the first input has to be.
    pub open spec fn fixed_tag(self) -> Option<nat> {
        match self {
            Mode::Byte => Some(8),
            Mode::Any => None,
            Mode::Tag12 => Some(12),
            Mode::Tagged => None,
        }
    }
}

/// What is wrong with the inputs of a lookup, if anything is.
pub open spec fn input_error(mode: Mode, inputs: Seq<ExpressionView>) -> Option<ErrorView> {
    if inputs.len() != mode.input_count() {
        Some(ErrorView::Inputs)
    } else if mode.fixed_tag() is Some && inputs[0].const_value() != mode.fixed_tag() {
        Some(ErrorView::Tag)
    } else {
        None
    }
}

/// The mode of a lookup that can be described, or why it cannot.
pub open spec fn verdict(lookup: LookupView) -> Result<Mode, ErrorView> {
    match mode_of(lookup.name) {
        None => Err(ErrorView::Name(lookup.name)),
        Some(mode) => match input_error(mode, lookup.inputs) {
            Some(error) => Err(error),
            None => Ok(mode),
        },
    }
}

/// Checks that `value` is the constant `expected`.
fn tag(value: &Expression, expected: u64) -> (result: Result<(), Error>)
    ensures
        result is Ok <==> value@.const_value() == Some(expected as nat),
        result matches Err(error) ==> error@ == ErrorView::Tag,
{
    match value.const_value() {
        Some(actual) => {
            if actual.same(&Scalar::from_u64(expected)) {
                Ok(())
            } else {
                Err(Error::Tag)
            }
        },
        None => Err(Error::Tag),
    }
}

impl Sha3LookupCallbacks {
    /// The mode of the lookup that is called `name`.
    pub fn mode(name: &str) -> (mode: Option<Mode>)
        ensures
            mode == mode_of(name@),
    {
        let decomposition = starts_with(name, "decomposition lookup");
        if starts_with(name, "spread byte lookup") {
            Some(Mode::Byte)
        } else if decomposition && (ends_with(name, "limb 0") || ends_with(name, "limb 1")
            || ends_with(name, "limb 2")) {
            Some(Mode::Any)
        } else if same_text(name, "decomposition lookup: limb 3") {
            Some(Mode::Tag12)
        } else if decomposition && (ends_with(name, "limb 4") || ends_with(name, "limb 5")) {
            Some(Mode::Tagged)
        } else {
            None
        }
    }

    /// Checks the inputs of a lookup.
    pub fn check(mode: Mode, lookup: &Lookup) -> (result: Result<(), Error>)
        ensures
            match result {
                Ok(_) => input_error(mode, lookup@.inputs) is None,
                Err(error) => input_error(mode, lookup@.inputs) == Some(error@),
            },
    {
        let size: usize = match mode {
            Mode::Byte => 3,
            Mode::Any => 1,
            Mode::Tag12 | Mode::Tagged => 2,
        };
        if lookup.inputs.len() != size {
            return Err(Error::Inputs);
        }
        match mode {
            Mode::Byte => tag(&lookup.inputs[0], 8),
            Mode::Tag12 => tag(&lookup.inputs[0], 12),
            _ => Ok(()),
        }
    }
}

/// The operand that is the constant `value`.
pub open spec fn constant(value: nat) -> OperandView {
    OperandView::Expr(ExpressionView::Constant(value))
}

/// The tag of the row that a lookup looks for.
pub open spec fn tag_part(mode: Mode, inputs: Seq<ExpressionView>) -> OperandView {
    match mode {
        Mode::Any => constant(13),
        Mode::Byte | Mode::Tag12 | Mode::Tagged => OperandView::Expr(inputs[0]),
    }
}

/// The dense value of the row that a lookup looks for: a new temporary, where
/// the lookup does not name it.
pub open spec fn dense_part(mode: Mode, inputs: Seq<ExpressionView>, next: nat) -> OperandView {
    match mode {
        Mode::Byte => OperandView::Expr(inputs[1]),
        Mode::Any | Mode::Tag12 | Mode::Tagged => OperandView::Temp(next),
    }
}

/// The input that holds the spread value of the row that a lookup looks for.
pub open spec fn spread_input(mode: Mode, inputs: Seq<ExpressionView>) -> ExpressionView {
    match mode {
        Mode::Byte => inputs[2],
        Mode::Any => inputs[0],
        Mode::Tag12 | Mode::Tagged => inputs[1],
    }
}

/// How many temporaries the parts of a lookup take.
pub open spec fn part_temps(mode: Mode) -> nat {
    match mode {
        Mode::Byte => 0,
        Mode::Any | Mode::Tag12 | Mode::Tagged => 1,
    }
}

/// How many temporaries a call takes.
pub open spec fn call_temps(output: OperandView) -> nat {
    match output {
        OperandView::Temp(_) => 0,
        OperandView::Expr(_) => 1,
    }
}

/// The call of `callee` on `input`. Its result goes into `output`, where that
/// is a temporary; else into the temporary `next`, which `output` has to equal.
pub open spec fn call_stmt(
    callee: Seq<char>,
    input: OperandView,
    output: OperandView,
    next: nat,
) -> StmtView {
    match output {
        OperandView::Temp(temp) => StmtView::Call {
            callee,
            inputs: seq![input],
            outputs: seq![temp],
        },
        OperandView::Expr(_) => StmtView::Block(
            seq![
                StmtView::Call { callee, inputs: seq![input], outputs: seq![next] },
                StmtView::Eq(output, OperandView::Temp(next)),
            ],
        ),
    }
}

/// One row of the bounds: what the parts are where the tag is `bits`.
pub open spec fn row_bound(
    tag: OperandView,
    dense: OperandView,
    spread: OperandView,
    bits: nat,
) -> BoolView {
    if bits == 0 {
        BoolView::And(
            seq![
                BoolView::Eq(tag, constant(0)),
                BoolView::Eq(dense, constant(0)),
                BoolView::Eq(spread, constant(0)),
            ],
        )
    } else {
        BoolView::And(
            seq![
                BoolView::Eq(tag, constant(bits)),
                BoolView::Lt(dense, constant(power(2, bits))),
                BoolView::Le(spread, constant(max_spread(bits))),
            ],
        )
    }
}

/// The condition that the parts lie within the bounds of one of the tags.
pub open spec fn bounds_condition(
    tag: OperandView,
    dense: OperandView,
    spread: OperandView,
) -> BoolView {
    BoolView::Or(Seq::new(14, |bits: int| row_bound(tag, dense, spread, bits as nat)))
}

/// The cell `rows` rows below the one that `query` reads.
pub open spec fn cell_below(query: Query, rows: int) -> ExpressionView {
    ExpressionView::Advice(
        Query { column_index: query.column_index, rotation: (query.rotation + rows) as i32 },
    )
}

/// Where the expression is a cell, the circuit can name the two cells below it.
pub open spec fn has_rows_below(value: ExpressionView) -> bool {
    value.advice() matches Some(query) ==> query.rotation + 2 <= i32::MAX
}

/// The weighted sum `x + 2 * y + 4 * z`.
pub open spec fn weighted_sum(
    x: ExpressionView,
    y: ExpressionView,
    z: ExpressionView,
) -> ExpressionView {
    ExpressionView::Sum(
        Box::new(
            ExpressionView::Sum(
                Box::new(x),
                Box::new(
                    ExpressionView::Product(Box::new(ExpressionView::Constant(2)), Box::new(y)),
                ),
            ),
        ),
        Box::new(ExpressionView::Product(Box::new(ExpressionView::Constant(4)), Box::new(z))),
    )
}

/// If the weighted sum of three cells is deterministic, so is each of them.
pub open spec fn determinism_axiom(query: Query, x: int, y: int, z: int) -> BoolView {
    let (cell_x, cell_y, cell_z) = (
        cell_below(query, x),
        cell_below(query, y),
        cell_below(query, z),
    );
    BoolView::Implies(
        Box::new(BoolView::Det(OperandView::Expr(weighted_sum(cell_x, cell_y, cell_z)))),
        Box::new(
            BoolView::And(
                seq![
                    BoolView::Det(OperandView::Expr(cell_x)),
                    BoolView::Det(OperandView::Expr(cell_y)),
                    BoolView::Det(OperandView::Expr(cell_z)),
                ],
            ),
        ),
    )
}

/// The axioms on the cell of the spread value and the two cells below it, for
/// each choice of three of these cells; a comment, where the spread value is
/// not a cell.
pub open spec fn determinism_stmt(spread: OperandView) -> StmtView {
    match spread {
        OperandView::Temp(_) => StmtView::Comment("no determinism axiom for temporary spread"@),
        OperandView::Expr(value) => match value.advice() {
            None => StmtView::Comment("determinism axiom unavailable"@),
            Some(query) => StmtView::Block(
                Seq::new(
                    27,
                    |k: int|
                        StmtView::Assert(determinism_axiom(query, k / 9, (k / 3) % 3, k % 3)),
                ),
            ),
        },
    }
}

/// The condition under which a lookup is described: the row that it looks for
/// is not the zero row.
pub open spec fn emission_condition(dense: OperandView, spread: OperandView) -> BoolView {
    let no_spread = BoolView::Eq(spread, constant(0));
    match dense {
        OperandView::Temp(_) => BoolView::Not(Box::new(no_spread)),
        OperandView::Expr(_) => BoolView::Not(
            Box::new(BoolView::And(seq![no_spread, BoolView::Eq(dense, constant(0))])),
        ),
    }
}

/// The description of a lookup, with new temporaries from `next` on.
pub open spec fn lookup_stmt(mode: Mode, inputs: Seq<ExpressionView>, next: nat) -> StmtView {
    let tag = tag_part(mode, inputs);
    let dense = dense_part(mode, inputs, next);
    let spread = OperandView::Expr(spread_input(mode, inputs));
    let after_parts = next + part_temps(mode);
    let after_spread = after_parts + call_temps(spread);
    StmtView::EmitUnlessFalse {
        cond: emission_condition(dense, spread),
        body: Box::new(
            StmtView::Block(
                seq![
                    StmtView::Assert(bounds_condition(tag, dense, spread)),
                    call_stmt("Spread"@, dense, spread, after_parts),
                    call_stmt("Unspread"@, spread, dense, after_spread),
                    determinism_stmt(spread),
                ],
            ),
        ),
    }
}

/// An operand that is the expression `value`.
fn expr(value: &Expression) -> (operand: ExprOrTemp)
    ensures
        operand@ == OperandView::Expr(value@),
{
    ExprOrTemp::Expr(value.clone())
}

/// An operand that is the constant `value`.
fn owned(value: u64) -> (operand: ExprOrTemp)
    ensures
        operand@ == constant(value as nat),
{
    ExprOrTemp::Expr(Expression::from_u64(value))
}

/// An operand that is a new temporary.
fn temp(temps: &mut Temps) -> (operand: ExprOrTemp)
    requires
        old(temps)@ < usize::MAX,
    ensures
        operand@ == OperandView::Temp(old(temps)@),
        final(temps)@ == old(temps)@ + 1,
{
    ExprOrTemp::Temp(temps.draw())
}

/// The conjunction of three expressions.
fn all_three(a: BoolExpr, b: BoolExpr, c: BoolExpr) -> (all: BoolExpr)
    ensures
        all@ == BoolView::And(seq![a@, b@, c@]),
{
    let mut parts: Vec<BoolExpr> = Vec::new();
    parts.push(a);
    parts.push(b);
    parts.push(c);
    assert(parts@.map_values(|p: BoolExpr| p@) =~= seq![a@, b@, c@]);
    all_of(parts)
}

/// The tag, the dense value and the spread value of a row.
pub type Parts = (ExprOrTemp, ExprOrTemp, ExprOrTemp);

impl Sha3LookupCallbacks {
    /// The tag, the dense value and the spread value of the row that a lookup
    /// looks for. Inputs beyond those that the mode reads play no part.
    pub fn parts(mode: Mode, lookup: &Lookup, temps: &mut Temps) -> (parts: Parts)
        requires
            lookup@.inputs.len() >= mode.input_count(),
            part_temps(mode) > 0 ==> old(temps)@ + part_temps(mode) <= usize::MAX,
        ensures
            parts.0@ == tag_part(mode, lookup@.inputs),
            parts.1@ == dense_part(mode, lookup@.inputs, old(temps)@),
            parts.2@ == OperandView::Expr(spread_input(mode, lookup@.inputs)),
            final(temps)@ == old(temps)@ + part_temps(mode),
    {
        let inputs = &lookup.inputs;
        match mode {
            Mode::Byte => (expr(&inputs[0]), expr(&inputs[1]), expr(&inputs[2])),
            Mode::Any => (owned(13), temp(temps), expr(&inputs[0])),
            Mode::Tag12 | Mode::Tagged => (expr(&inputs[0]), temp(temps), expr(&inputs[1])),
        }
    }

    /// The call of `callee` on `input`. Its result goes into `output`, where
    /// that is a temporary; else into a new temporary, which `output` has to
    /// equal.
    pub fn call(
        callee: &str,
        input: ExprOrTemp,
        output: ExprOrTemp,
        temps: &mut Temps,
    ) -> (stmt: Stmt)
        requires
            call_temps(output@) > 0 ==> old(temps)@ + call_temps(output@) <= usize::MAX,
        ensures
            stmt@ == call_stmt(callee@, input@, output@, old(temps)@),
            final(temps)@ == old(temps)@ + call_temps(output@),
    {
        match &output {
            ExprOrTemp::Temp(t) => call_of(callee, input, *t),
            ExprOrTemp::Expr(_) => {
                let out: usize = temps.draw();
                let call = call_of(callee, input, out);
                let mut stmts: Vec<Stmt> = Vec::new();
                stmts.push(call);
                stmts.push(Stmt::Eq(output, ExprOrTemp::Temp(out)));
                let block = block_of(stmts);
                assert(stmts@.map_values(|s: Stmt| s@) =~= seq![
                    call@,
                    StmtView::Eq(output@, OperandView::Temp(out as nat)),
                ]);
                block
            },
        }
    }

    /// The statement that the parts of a row lie within the bounds of the
    /// table.
    pub fn bounds(tag: &ExprOrTemp, dense: &ExprOrTemp, spread: &ExprOrTemp) -> (stmt: Stmt)
        ensures
            stmt@ == StmtView::Assert(bounds_condition(tag@, dense@, spread@)),
    {
        let zero = all_three(
            BoolExpr::Eq(tag.clone(), owned(0)),
            BoolExpr::Eq(dense.clone(), owned(0)),
            BoolExpr::Eq(spread.clone(), owned(0)),
        );
        let mut rows: Vec<BoolExpr> = Vec::new();
        rows.push(zero);
        let mut bits: u64 = 1;
        let mut two: u64 = 2;
        let mut eight: u64 = 8;
        proof {
            reveal_with_fuel(power, 2);
        }
        while bits < 14
            invariant
                1 <= bits <= 14,
                bits < 14 ==> two == power(2, bits as nat) && eight == power(8, bits as nat),
                rows@.len() == bits,
                forall|i: int|
                    0 <= i < bits ==> (#[trigger] rows@[i])@ == row_bound(
                        tag@,
                        dense@,
                        spread@,
                        i as nat,
                    ),
            decreases 14 - bits,
        {
            proof {
                powers_are_small(bits as nat);
            }
            let row = all_three(
                BoolExpr::Eq(tag.clone(), owned(bits)),
                BoolExpr::Lt(dense.clone(), owned(two)),
                BoolExpr::Le(spread.clone(), owned((eight - 1) / 7)),
            );
            rows.push(row);
            two = two * 2;
            eight = eight * 8;
            bits = bits + 1;
        }
        let any = any_of(rows);
        assert(rows@.map_values(|b: BoolExpr| b@) =~= Seq::new(
            14,
            |bits: int| row_bound(tag@, dense@, spread@, bits as nat),
        ));
        Stmt::Assert(any)
    }
}

/// The cell `rows` rows below the one that `query` reads.
fn below(query: Query, rows: i32) -> (cell: Expression)
    requires
        0 <= rows,
        query.rotation + rows <= i32::MAX,
    ensures
        cell@ == cell_below(query, rows as int),
{
    Expression::Advice(
        Query { column_index: query.column_index, rotation: query.rotation + rows },
    )
}

/// The product of an integer and an expression.
fn scaled(factor: u64, value: Expression) -> (product: Expression)
    ensures
        product@ == ExpressionView::Product(
            Box::new(ExpressionView::Constant(factor as nat)),
            Box::new(value@),
        ),
{
    Expression::Product(Box::new(Expression::from_u64(factor)), Box::new(value))
}

/// The sum of two expressions.
fn sum(a: Expression, b: Expression) -> (total: Expression)
    ensures
        total@ == ExpressionView::Sum(Box::new(a@), Box::new(b@)),
{
    Expression::Sum(Box::new(a), Box::new(b))
}

/// The statement that the expression is deterministic.
fn det(value: Expression) -> (condition: BoolExpr)
    ensures
        condition@ == BoolView::Det(OperandView::Expr(value@)),
{
    BoolExpr::Det(ExprOrTemp::Expr(value))
}

/// The axiom on three of the cells at and below the one that `query` reads.
fn axiom_on_cells(query: Query, x: i32, y: i32, z: i32) -> (stmt: Stmt)
    requires
        0 <= x <= 2,
        0 <= y <= 2,
        0 <= z <= 2,
        query.rotation + 2 <= i32::MAX,
    ensures
        stmt@ == StmtView::Assert(determinism_axiom(query, x as int, y as int, z as int)),
{
    let linear = sum(
        sum(below(query, x), scaled(2, below(query, y))),
        scaled(4, below(query, z)),
    );
    let each = all_three(det(below(query, x)), det(below(query, y)), det(below(query, z)));
    Stmt::Assert(BoolExpr::Implies(Box::new(det(linear)), Box::new(each)))
}

/// The description of a lookup, and where it comes from.
#[derive(Debug)]
pub struct LookupStmt {
    pub name: String,
    pub idx: usize,
    pub stmt: Stmt,
}

impl Sha3LookupCallbacks {
    /// The axioms on the cell of the spread value and the two cells below it;
    /// a comment, where the spread value is not a cell.
    pub fn determinism(spread: &ExprOrTemp) -> (stmt: Stmt)
        requires
            spread@ matches OperandView::Expr(value) ==> has_rows_below(value),
        ensures
            stmt@ == determinism_stmt(spread@),
    {
        let value = match spread {
            ExprOrTemp::Expr(value) => value,
            ExprOrTemp::Temp(_) => {
                return Stmt::Comment("no determinism axiom for temporary spread".to_owned());
            },
        };
        let query = match value.advice() {
            Some(query) => query,
            None => {
                return Stmt::Comment("determinism axiom unavailable".to_owned());
            },
        };
        let mut axioms: Vec<Stmt> = Vec::new();
        let mut k: i32 = 0;
        while k < 27
            invariant
                0 <= k <= 27,
                query.rotation + 2 <= i32::MAX,
                axioms@.len() == k,
                forall|i: int|
                    0 <= i < k ==> (#[trigger] axioms@[i])@ == StmtView::Assert(
                        determinism_axiom(query, i / 9, (i / 3) % 3, i % 3),
                    ),
            decreases 27 - k,
        {
            axioms.push(axiom_on_cells(query, k / 9, (k / 3) % 3, k % 3));
            k = k + 1;
        }
        let block = block_of(axioms);
        assert(axioms@.map_values(|s: Stmt| s@) =~= Seq::new(
            27,
            |k: int| StmtView::Assert(determinism_axiom(query, k / 9, (k / 3) % 3, k % 3)),
        ));
        block
    }

    /// The condition under which a lookup is described: the row that it looks
    /// for is not the zero row.
    pub fn disable(dense: &ExprOrTemp, spread: &ExprOrTemp) -> (condition: BoolExpr)
        ensures
            condition@ == emission_condition(dense@, spread@),
    {
        reveal_with_fuel(BoolExpr::model, 2);
        let no_spread = BoolExpr::Eq(spread.clone(), owned(0));
        match dense {
            ExprOrTemp::Temp(_) => BoolExpr::Not(Box::new(no_spread)),
            ExprOrTemp::Expr(_) => {
                let mut parts: Vec<BoolExpr> = Vec::new();
                parts.push(no_spread);
                parts.push(BoolExpr::Eq(dense.clone(), owned(0)));
                let zero = all_of(parts);
                assert(parts@.map_values(|b: BoolExpr| b@) =~= seq![
                    BoolView::Eq(spread@, constant(0)),
                    BoolView::Eq(dense@, constant(0)),
                ]);
                BoolExpr::Not(Box::new(zero))
            },
        }
    }

    /// Describes a lookup.
    pub fn on_lookup(&self, lookup: &Lookup, temps: &mut Temps) -> (result: Result<
        LookupStmt,
        Error,
    >)
        requires
            verdict(lookup@) matches Ok(mode) ==> {
                &&& old(temps)@ + 2 <= usize::MAX
                &&& has_rows_below(spread_input(mode, lookup@.inputs))
            },
        ensures
            match result {
                Ok(described) => {
                    &&& verdict(lookup@) matches Ok(mode)
                    &&& described.stmt@ == lookup_stmt(mode, lookup@.inputs, old(temps)@)
                    &&& described.name@ == lookup@.name
                    &&& described.idx == lookup@.idx
                    &&& final(temps)@ == old(temps)@ + 2
                },
                Err(error) => {
                    &&& verdict(lookup@) == Err::<Mode, ErrorView>(error@)
                    &&& final(temps)@ == old(temps)@
                },
            },
    {
        let mode = match Self::mode(lookup.name.as_str()) {
            Some(mode) => mode,
            None => {
                return Err(Error::Name(lookup.name.as_str().to_owned()));
            },
        };
        match Self::check(mode, lookup) {
            Ok(_) => {},
            Err(error) => {
                return Err(error);
            },
        }
        let (tag_value, dense, spread) = Self::parts(mode, lookup, temps);
        let cond = Self::disable(&dense, &spread);
        let mut stmts: Vec<Stmt> = Vec::new();
        stmts.push(Self::bounds(&tag_value, &dense, &spread));
        stmts.push(Self::call("Spread", dense.clone(), spread.clone(), temps));
        stmts.push(Self::call("Unspread", spread.clone(), dense.clone(), temps));
        stmts.push(Self::determinism(&spread));
        let body = block_of(stmts);
        let stmt = Stmt::EmitUnlessFalse { cond, body: Box::new(body) };
        proof {
            let expected = lookup_stmt(mode, lookup@.inputs, old(temps)@);
            assert(stmts@.map_values(|s: Stmt| s@) =~= (*expected->body)->Block_0);
        }
        Ok(LookupStmt { name: lookup.name.as_str().to_owned(), idx: lookup.idx, stmt })
    }
}

} // verus!
