//! Statements with which the logic of a lookup is described to the backends.

use vstd::prelude::*;

use crate::expression::{Expression, ExpressionView};

verus! {

/// A temporary variable or an expression.
#[derive(Debug, PartialEq, Eq)]
pub enum ExprOrTemp {
    /// A temporary variable, by its number.
    Temp(usize),
    /// An expression.
    Expr(Expression),
}

/// A temporary variable or the model of an expression.
pub enum OperandView {
    Temp(nat),
    Expr(ExpressionView),
}

impl View for ExprOrTemp {
    type V = OperandView;

    open spec fn view(&self) -> OperandView {
        match self {
            ExprOrTemp::Temp(t) => OperandView::Temp(*t as nat),
            ExprOrTemp::Expr(e) => OperandView::Expr(e@),
        }
    }
}

impl Clone for ExprOrTemp {
    fn clone(&self) -> (copy: Self)
        ensures
            copy@ == self@,
    {
        match self {
            ExprOrTemp::Temp(t) => ExprOrTemp::Temp(*t),
            ExprOrTemp::Expr(e) => ExprOrTemp::Expr(e.clone()),
        }
    }
}

/// A boolean expression.
#[derive(Debug, PartialEq, Eq)]
pub enum BoolExpr {
    /// The two sides are equal.
    Eq(ExprOrTemp, ExprOrTemp),
    /// The first side is less than the second.
    Lt(ExprOrTemp, ExprOrTemp),
    /// The first side is at most the second.
    Le(ExprOrTemp, ExprOrTemp),
    /// All of them hold.
    And(Vec<BoolExpr>),
    /// One of them holds.
    Or(Vec<BoolExpr>),
    /// It does not hold.
    Not(Box<BoolExpr>),
    /// The operand is deterministic.
    Det(ExprOrTemp),
    /// If the first holds, so does the second.
    Implies(Box<BoolExpr>, Box<BoolExpr>),
}

/// The model of a boolean expression.
pub enum BoolView {
    Eq(OperandView, OperandView),
    Lt(OperandView, OperandView),
    Le(OperandView, OperandView),
    And(Seq<BoolView>),
    Or(Seq<BoolView>),
    Not(Box<BoolView>),
    Det(OperandView),
    Implies(Box<BoolView>, Box<BoolView>),
}

impl BoolExpr {
    /// The model of the expression.
    pub open spec fn model(self) -> BoolView
        decreases self,
    {
        match self {
            BoolExpr::Eq(a, b) => BoolView::Eq(a@, b@),
            BoolExpr::Lt(a, b) => BoolView::Lt(a@, b@),
            BoolExpr::Le(a, b) => BoolView::Le(a@, b@),
            BoolExpr::And(all) => BoolView::And(
                Seq::new(
                    all@.len(),
                    |i: int|
                        if 0 <= i < all@.len() {
                            all@[i].model()
                        } else {
                            arbitrary()
                        },
                ),
            ),
            BoolExpr::Or(any) => BoolView::Or(
                Seq::new(
                    any@.len(),
                    |i: int|
                        if 0 <= i < any@.len() {
                            any@[i].model()
                        } else {
                            arbitrary()
                        },
                ),
            ),
            BoolExpr::Not(a) => BoolView::Not(Box::new((*a).model())),
            BoolExpr::Det(a) => BoolView::Det(a@),
            BoolExpr::Implies(a, b) => BoolView::Implies(
                Box::new((*a).model()),
                Box::new((*b).model()),
            ),
        }
    }
}

impl View for BoolExpr {
    type V = BoolView;

    open spec fn view(&self) -> BoolView {
        self.model()
    }
}

/// `value` gives every expression its value over the cells.
pub open spec fn evaluates(
    value: spec_fn(OperandView) -> nat,
    cell: spec_fn(ExpressionView) -> nat,
) -> bool {
    forall|e: ExpressionView| #[trigger] value(OperandView::Expr(e)) == e.eval(cell)
}

impl BoolView {
    /// Whether the expression holds where `value` gives the number of each
    /// operand and `det` says which operands are deterministic.
    pub open spec fn holds(
        self,
        value: spec_fn(OperandView) -> nat,
        det: spec_fn(OperandView) -> bool,
    ) -> bool
        decreases self,
    {
        match self {
            BoolView::Eq(a, b) => value(a) == value(b),
            BoolView::Lt(a, b) => value(a) < value(b),
            BoolView::Le(a, b) => value(a) <= value(b),
            BoolView::And(all) => forall|i: int|
                0 <= i < all.len() ==> (#[trigger] all[i]).holds(value, det),
            BoolView::Or(any) => exists|i: int|
                0 <= i < any.len() && (#[trigger] any[i]).holds(value, det),
            BoolView::Not(a) => !(*a).holds(value, det),
            BoolView::Det(a) => det(a),
            BoolView::Implies(a, b) => (*a).holds(value, det) ==> (*b).holds(value, det),
        }
    }
}

impl OperandView {
    /// The operand is no temporary but one from `low` up to `high`.
    pub open spec fn temps_within(self, low: nat, high: nat) -> bool {
        match self {
            OperandView::Temp(temp) => low <= temp < high,
            OperandView::Expr(_) => true,
        }
    }
}

impl BoolView {
    /// The expression speaks of no temporaries but those from `low` up to
    /// `high`.
    pub open spec fn temps_within(self, low: nat, high: nat) -> bool
        decreases self,
    {
        match self {
            BoolView::Eq(a, b) | BoolView::Lt(a, b) | BoolView::Le(a, b) => a.temps_within(
                low,
                high,
            ) && b.temps_within(low, high),
            BoolView::And(parts) | BoolView::Or(parts) => forall|i: int|
                0 <= i < parts.len() ==> (#[trigger] parts[i]).temps_within(low, high),
            BoolView::Not(a) => (*a).temps_within(low, high),
            BoolView::Det(a) => a.temps_within(low, high),
            BoolView::Implies(a, b) => (*a).temps_within(low, high) && (*b).temps_within(low, high),
        }
    }
}

/// Builds a conjunction.
pub fn all_of(parts: Vec<BoolExpr>) -> (all: BoolExpr)
    ensures
        all@ == BoolView::And(parts@.map_values(|b: BoolExpr| b@)),
{
    let all = BoolExpr::And(parts);
    assert(all@->And_0 =~= parts@.map_values(|b: BoolExpr| b@));
    all
}

/// Builds a disjunction.
pub fn any_of(parts: Vec<BoolExpr>) -> (any: BoolExpr)
    ensures
        any@ == BoolView::Or(parts@.map_values(|b: BoolExpr| b@)),
{
    let any = BoolExpr::Or(parts);
    assert(any@->Or_0 =~= parts@.map_values(|b: BoolExpr| b@));
    any
}

/// A statement.
#[derive(Debug, PartialEq, Eq)]
pub enum Stmt {
    /// A call to another module, which puts its results into temporaries.
    Call { callee: String, inputs: Vec<ExprOrTemp>, outputs: Vec<usize> },
    /// A constraint: the two sides are equal.
    Eq(ExprOrTemp, ExprOrTemp),
    /// A constraint: the first side is less than the second.
    Lt(ExprOrTemp, ExprOrTemp),
    /// A constraint: the expression holds.
    Assert(BoolExpr),
    /// A text comment.
    Comment(String),
    /// One statement after another.
    Block(Vec<Stmt>),
    /// A statement that is left out where the condition folds to false.
    EmitUnlessFalse { cond: BoolExpr, body: Box<Stmt> },
}

/// The model of a statement.
pub enum StmtView {
    Call { callee: Seq<char>, inputs: Seq<OperandView>, outputs: Seq<nat> },
    Eq(OperandView, OperandView),
    Lt(OperandView, OperandView),
    Assert(BoolView),
    Comment(Seq<char>),
    Block(Seq<StmtView>),
    EmitUnlessFalse { cond: BoolView, body: Box<StmtView> },
}

impl Stmt {
    /// The model of the statement.
    pub open spec fn model(self) -> StmtView
        decreases self,
    {
        match self {
            Stmt::Call { callee, inputs, outputs } => StmtView::Call {
                callee: callee@,
                inputs: inputs@.map_values(|a: ExprOrTemp| a@),
                outputs: outputs@.map_values(|t: usize| t as nat),
            },
            Stmt::Eq(a, b) => StmtView::Eq(a@, b@),
            Stmt::Lt(a, b) => StmtView::Lt(a@, b@),
            Stmt::Assert(cond) => StmtView::Assert(cond@),
            Stmt::Comment(text) => StmtView::Comment(text@),
            Stmt::Block(stmts) => StmtView::Block(
                Seq::new(
                    stmts@.len(),
                    |i: int|
                        if 0 <= i < stmts@.len() {
                            stmts@[i].model()
                        } else {
                            arbitrary()
                        },
                ),
            ),
            Stmt::EmitUnlessFalse { cond, body } => StmtView::EmitUnlessFalse {
                cond: cond@,
                body: Box::new((*body).model()),
            },
        }
    }
}

impl View for Stmt {
    type V = StmtView;

    open spec fn view(&self) -> StmtView {
        self.model()
    }
}

impl StmtView {
    /// The statement speaks of no temporaries but those from `low` up to
    /// `high`.
    pub open spec fn temps_within(self, low: nat, high: nat) -> bool
        decreases self,
    {
        match self {
            StmtView::Call { callee, inputs, outputs } => {
                &&& forall|i: int|
                    0 <= i < inputs.len() ==> (#[trigger] inputs[i]).temps_within(low, high)
                &&& forall|i: int| 0 <= i < outputs.len() ==> low <= #[trigger] outputs[i] < high
            },
            StmtView::Eq(a, b) | StmtView::Lt(a, b) => a.temps_within(low, high)
                && b.temps_within(low, high),
            StmtView::Assert(cond) => cond.temps_within(low, high),
            StmtView::Comment(_) => true,
            StmtView::Block(stmts) => forall|i: int|
                0 <= i < stmts.len() ==> (#[trigger] stmts[i]).temps_within(low, high),
            StmtView::EmitUnlessFalse { cond, body } => cond.temps_within(low, high)
                && (*body).temps_within(low, high),
        }
    }
}

/// Builds a block.
pub fn block_of(stmts: Vec<Stmt>) -> (block: Stmt)
    ensures
        block@ == StmtView::Block(stmts@.map_values(|s: Stmt| s@)),
{
    let block = Stmt::Block(stmts);
    assert(block@->Block_0 =~= stmts@.map_values(|s: Stmt| s@));
    block
}

/// Builds a call with one input and one output.
pub fn call_of(callee: &str, input: ExprOrTemp, output: usize) -> (call: Stmt)
    ensures
        call@ == (StmtView::Call {
            callee: callee@,
            inputs: seq![input@],
            outputs: seq![output as nat],
        }),
{
    let mut inputs: Vec<ExprOrTemp> = Vec::new();
    inputs.push(input);
    let mut outputs: Vec<usize> = Vec::new();
    outputs.push(output);
    assert(inputs@.map_values(|a: ExprOrTemp| a@) =~= seq![input@]);
    assert(outputs@.map_values(|t: usize| t as nat) =~= seq![output as nat]);
    Stmt::Call { callee: callee.to_owned(), inputs, outputs }
}

/// Generator of temporary variables, numbered in the order in which they are
/// drawn.
#[derive(Debug)]
pub struct Temps {
    count: usize,
}

impl View for Temps {
    type V = nat;

    /// How many temporaries were drawn: the number of the next one.
    closed spec fn view(&self) -> nat {
        self.count as nat
    }
}

impl Temps {
    /// A generator whose first temporary has the number `first`.
    pub fn starting_at(first: usize) -> (temps: Self)
        ensures
            temps@ == first,
    {
        Self { count: first }
    }

    /// How many temporaries were drawn: the number of the next one.
    pub fn count(&self) -> (count: usize)
        ensures
            count == self@,
    {
        self.count
    }

    /// Draws a temporary.
    pub fn draw(&mut self) -> (temp: usize)
        requires
            old(self)@ < usize::MAX,
        ensures
            temp == old(self)@,
            final(self)@ == old(self)@ + 1,
    {
        let temp: usize = self.count;
        self.count = self.count + 1;
        temp
    }
}

impl StmtView {
    /// Whether the statement holds where `value` gives the number of each
    /// operand, `det` says which operands are deterministic, and `function` says
    /// what a callee gives back.
    pub open spec fn holds(
        self,
        value: spec_fn(OperandView) -> nat,
        det: spec_fn(OperandView) -> bool,
        function: spec_fn(Seq<char>, nat) -> nat,
    ) -> bool
        decreases self,
    {
        match self {
            StmtView::Call { callee, inputs, outputs } => {
                &&& inputs.len() == 1
                &&& outputs.len() == 1
                &&& value(OperandView::Temp(outputs[0])) == function(callee, value(inputs[0]))
            },
            StmtView::Eq(a, b) => value(a) == value(b),
            StmtView::Lt(a, b) => value(a) < value(b),
            StmtView::Assert(cond) => cond.holds(value, det),
            StmtView::Comment(_) => true,
            StmtView::Block(stmts) => forall|i: int|
                0 <= i < stmts.len() ==> (#[trigger] stmts[i]).holds(value, det, function),
            StmtView::EmitUnlessFalse { cond, body } => cond.holds(value, det) ==> (*body).holds(
                value,
                det,
                function,
            ),
        }
    }
}

/// The model of an operand is of its kind and holds what it holds.
pub proof fn operand_models_are_faithful(temp: usize, e: Expression)
    ensures
        ExprOrTemp::Temp(temp)@ == OperandView::Temp(temp as nat),
        ExprOrTemp::Expr(e)@ == OperandView::Expr(e@),
{
}

/// The model of a boolean expression is of its kind and holds the models of its
/// parts, in order.
pub proof fn condition_models_are_faithful(
    a: ExprOrTemp,
    b: ExprOrTemp,
    c: BoolExpr,
    d: BoolExpr,
    parts: Vec<BoolExpr>,
)
    ensures
        BoolExpr::Eq(a, b)@ == BoolView::Eq(a@, b@),
        BoolExpr::Lt(a, b)@ == BoolView::Lt(a@, b@),
        BoolExpr::Le(a, b)@ == BoolView::Le(a@, b@),
        BoolExpr::And(parts)@ == BoolView::And(parts@.map_values(|p: BoolExpr| p@)),
        BoolExpr::Or(parts)@ == BoolView::Or(parts@.map_values(|p: BoolExpr| p@)),
        BoolExpr::Not(Box::new(c))@ == BoolView::Not(Box::new(c@)),
        BoolExpr::Det(a)@ == BoolView::Det(a@),
        BoolExpr::Implies(Box::new(c), Box::new(d))@ == BoolView::Implies(
            Box::new(c@),
            Box::new(d@),
        ),
{
    assert(BoolExpr::And(parts)@->And_0 =~= parts@.map_values(|p: BoolExpr| p@));
    assert(BoolExpr::Or(parts)@->Or_0 =~= parts@.map_values(|p: BoolExpr| p@));
}

/// The model of a statement is of its kind and holds the models of its parts, in
/// order.
pub proof fn statement_models_are_faithful(
    a: ExprOrTemp,
    b: ExprOrTemp,
    c: BoolExpr,
    text: String,
    inputs: Vec<ExprOrTemp>,
    outputs: Vec<usize>,
    s: Stmt,
    stmts: Vec<Stmt>,
)
    ensures
        (Stmt::Call { callee: text, inputs, outputs })@ == (StmtView::Call {
            callee: text@,
            inputs: inputs@.map_values(|i: ExprOrTemp| i@),
            outputs: outputs@.map_values(|t: usize| t as nat),
        }),
        Stmt::Eq(a, b)@ == StmtView::Eq(a@, b@),
        Stmt::Lt(a, b)@ == StmtView::Lt(a@, b@),
        Stmt::Assert(c)@ == StmtView::Assert(c@),
        Stmt::Comment(text)@ == StmtView::Comment(text@),
        Stmt::Block(stmts)@ == StmtView::Block(stmts@.map_values(|t: Stmt| t@)),
        (Stmt::EmitUnlessFalse { cond: c, body: Box::new(s) })@ == (StmtView::EmitUnlessFalse {
            cond: c@,
            body: Box::new(s@),
        }),
{
    assert(Stmt::Block(stmts)@->Block_0 =~= stmts@.map_values(|t: Stmt| t@));
}

} // verus!
