//! Polynomial expressions over the cells of a circuit.

use vstd::prelude::*;

use crate::scalar::{
    field_add, field_mul, field_neg, field_operations_are_modular, modulus, Scalar,
};

verus! {

/// A cell of a column, some rows away from the current one.
#[derive(Debug, Clone, Copy, PartialEq, Eq, Structural)]
pub struct Query {
    pub column_index: usize,
    pub rotation: i32,
}

/// A polynomial expression.
#[derive(Debug, PartialEq, Eq)]
pub enum Expression {
    /// A constant polynomial.
    Constant(Scalar),
    /// A virtual selector, by its index.
    Selector(usize),
    /// A cell of a fixed column.
    Fixed(Query),
    /// A cell of an advice (witness) column.
    Advice(Query),
    /// A cell of an instance (external) column.
    Instance(Query),
    /// A challenge, by its index.
    Challenge(usize),
    /// A negated polynomial.
    Negated(Box<Expression>),
    /// The sum of two polynomials.
    Sum(Box<Expression>, Box<Expression>),
    /// The product of two polynomials.
    Product(Box<Expression>, Box<Expression>),
    /// A scaled polynomial.
    Scaled(Box<Expression>, Scalar),
}

/// An expression with its constants as numbers.
pub enum ExpressionView {
    Constant(nat),
    Selector(usize),
    Fixed(Query),
    Advice(Query),
    Instance(Query),
    Challenge(usize),
    Negated(Box<ExpressionView>),
    Sum(Box<ExpressionView>, Box<ExpressionView>),
    Product(Box<ExpressionView>, Box<ExpressionView>),
    Scaled(Box<ExpressionView>, nat),
}

impl Expression {
    /// The expression with its constants as numbers.
    pub open spec fn model(self) -> ExpressionView
        decreases self,
    {
        match self {
            Expression::Constant(value) => ExpressionView::Constant(value@),
            Expression::Selector(index) => ExpressionView::Selector(index),
            Expression::Fixed(query) => ExpressionView::Fixed(query),
            Expression::Advice(query) => ExpressionView::Advice(query),
            Expression::Instance(query) => ExpressionView::Instance(query),
            Expression::Challenge(index) => ExpressionView::Challenge(index),
            Expression::Negated(a) => ExpressionView::Negated(Box::new((*a).model())),
            Expression::Sum(a, b) => ExpressionView::Sum(
                Box::new((*a).model()),
                Box::new((*b).model()),
            ),
            Expression::Product(a, b) => ExpressionView::Product(
                Box::new((*a).model()),
                Box::new((*b).model()),
            ),
            Expression::Scaled(a, factor) => ExpressionView::Scaled(
                Box::new((*a).model()),
                factor@,
            ),
        }
    }
}

impl View for Expression {
    type V = ExpressionView;

    open spec fn view(&self) -> ExpressionView {
        self.model()
    }
}

impl ExpressionView {
    /// The value of an expression that reads no cell and no challenge, with
    /// every selector enabled.
    pub open spec fn const_value(self) -> Option<nat>
        decreases self,
    {
        match self {
            ExpressionView::Constant(value) => Some(value),
            ExpressionView::Selector(_) => Some(1),
            ExpressionView::Fixed(_) => None,
            ExpressionView::Advice(_) => None,
            ExpressionView::Instance(_) => None,
            ExpressionView::Challenge(_) => None,
            ExpressionView::Negated(a) => match (*a).const_value() {
                Some(x) => Some(field_neg(x)),
                None => None,
            },
            ExpressionView::Sum(a, b) => match ((*a).const_value(), (*b).const_value()) {
                (Some(x), Some(y)) => Some(field_add(x, y)),
                _ => None,
            },
            ExpressionView::Product(a, b) => match ((*a).const_value(), (*b).const_value()) {
                (Some(x), Some(y)) => Some(field_mul(x, y)),
                _ => None,
            },
            ExpressionView::Scaled(a, factor) => match (*a).const_value() {
                Some(x) => Some(field_mul(x, factor)),
                None => None,
            },
        }
    }

    /// The value of the expression, where `cell` gives the value of every
    /// selector, cell and challenge.
    pub open spec fn eval(self, cell: spec_fn(ExpressionView) -> nat) -> nat
        decreases self,
    {
        match self {
            ExpressionView::Constant(value) => value,
            ExpressionView::Selector(_) => cell(self),
            ExpressionView::Fixed(_) => cell(self),
            ExpressionView::Advice(_) => cell(self),
            ExpressionView::Instance(_) => cell(self),
            ExpressionView::Challenge(_) => cell(self),
            ExpressionView::Negated(a) => field_neg((*a).eval(cell)),
            ExpressionView::Sum(a, b) => field_add((*a).eval(cell), (*b).eval(cell)),
            ExpressionView::Product(a, b) => field_mul((*a).eval(cell), (*b).eval(cell)),
            ExpressionView::Scaled(a, factor) => field_mul((*a).eval(cell), factor),
        }
    }

    /// The advice cell that an expression reads, where the expression is that
    /// cell, behind any number of selectors.
    pub open spec fn advice(self) -> Option<Query>
        decreases self,
    {
        match self {
            ExpressionView::Advice(query) => Some(query),
            ExpressionView::Product(a, b) => if *a is Selector {
                (*b).advice()
            } else {
                None
            },
            _ => None,
        }
    }
}

impl Clone for Expression {
    fn clone(&self) -> (copy: Self)
        ensures
            copy@ == self@,
        decreases self,
    {
        match self {
            Expression::Constant(value) => Expression::Constant(*value),
            Expression::Selector(index) => Expression::Selector(*index),
            Expression::Fixed(query) => Expression::Fixed(*query),
            Expression::Advice(query) => Expression::Advice(*query),
            Expression::Instance(query) => Expression::Instance(*query),
            Expression::Challenge(index) => Expression::Challenge(*index),
            Expression::Negated(a) => Expression::Negated(Box::new((&**a).clone())),
            Expression::Sum(a, b) => Expression::Sum(
                Box::new((&**a).clone()),
                Box::new((&**b).clone()),
            ),
            Expression::Product(a, b) => Expression::Product(
                Box::new((&**a).clone()),
                Box::new((&**b).clone()),
            ),
            Expression::Scaled(a, factor) => Expression::Scaled(
                Box::new((&**a).clone()),
                *factor,
            ),
        }
    }
}

impl Expression {
    /// The constant polynomial of an integer.
    pub fn from_u64(value: u64) -> (expression: Self)
        ensures
            expression@ == ExpressionView::Constant(value as nat),
    {
        Expression::Constant(Scalar::from_u64(value))
    }

    /// The value of an expression that reads no cell and no challenge, with
    /// every selector enabled.
    pub fn const_value(&self) -> (value: Option<Scalar>)
        ensures
            match value {
                Some(scalar) => self@.const_value() == Some(scalar@),
                None => self@.const_value() is None,
            },
        decreases self,
    {
        match self {
            Expression::Constant(value) => Some(*value),
            Expression::Selector(_) => Some(Scalar::from_u64(1)),
            Expression::Fixed(_) => None,
            Expression::Advice(_) => None,
            Expression::Instance(_) => None,
            Expression::Challenge(_) => None,
            Expression::Negated(a) => match a.const_value() {
                Some(x) => Some(x.negated()),
                None => None,
            },
            Expression::Sum(a, b) => match (a.const_value(), b.const_value()) {
                (Some(x), Some(y)) => Some(x.plus(&y)),
                _ => None,
            },
            Expression::Product(a, b) => match (a.const_value(), b.const_value()) {
                (Some(x), Some(y)) => Some(x.times(&y)),
                _ => None,
            },
            Expression::Scaled(a, factor) => match a.const_value() {
                Some(x) => Some(x.times(factor)),
                None => None,
            },
        }
    }

    /// The advice cell that an expression reads, where the expression is that
    /// cell, behind any number of selectors.
    pub fn advice(&self) -> (query: Option<Query>)
        ensures
            query == self@.advice(),
        decreases self,
    {
        reveal_with_fuel(Expression::model, 2);
        match self {
            Expression::Advice(query) => Some(*query),
            Expression::Product(a, b) => match &**a {
                Expression::Selector(_) => b.advice(),
                _ => None,
            },
            _ => None,
        }
    }
}

/// Every selector is enabled.
pub open spec fn selectors_enabled(cell: spec_fn(ExpressionView) -> nat) -> bool {
    forall|index: usize| #[trigger] cell(ExpressionView::Selector(index)) == 1
}

/// An expression that has a constant value has that value over any cells,
/// wherever the selectors are enabled.
pub proof fn const_value_is_the_value(
    expression: ExpressionView,
    cell: spec_fn(ExpressionView) -> nat,
)
    requires
        selectors_enabled(cell),
        expression.const_value() is Some,
    ensures
        expression.const_value() == Some(expression.eval(cell)),
    decreases expression,
{
    match expression {
        ExpressionView::Selector(index) => {
            assert(cell(ExpressionView::Selector(index)) == 1);
        },
        ExpressionView::Negated(a) => const_value_is_the_value(*a, cell),
        ExpressionView::Sum(a, b) => {
            const_value_is_the_value(*a, cell);
            const_value_is_the_value(*b, cell);
        },
        ExpressionView::Product(a, b) => {
            const_value_is_the_value(*a, cell);
            const_value_is_the_value(*b, cell);
        },
        ExpressionView::Scaled(a, _) => const_value_is_the_value(*a, cell),
        _ => {},
    }
}

/// An expression that reads an advice cell through selectors has the value of
/// that cell, wherever the selectors are enabled.
pub proof fn advice_is_the_value(
    expression: ExpressionView,
    cell: spec_fn(ExpressionView) -> nat,
)
    requires
        selectors_enabled(cell),
        forall|e: ExpressionView| #[trigger] cell(e) < modulus(),
        expression.advice() is Some,
    ensures
        expression.eval(cell) == cell(ExpressionView::Advice(expression.advice()->0)),
    decreases expression,
{
    match expression {
        ExpressionView::Product(a, b) => {
            advice_is_the_value(*b, cell);
            match *a {
                ExpressionView::Selector(index) => {
                    assert(cell(ExpressionView::Selector(index)) == 1);
                    assert((*a).eval(cell) == 1);
                },
                _ => {},
            }
            let v = (*b).eval(cell);
            assert(1 * v == v);
            assert(v % modulus() == v) by (nonlinear_arith)
                requires
                    v < modulus(),
            ;
        },
        _ => {},
    }
}

/// The model of an expression is of its kind and holds the models of its parts,
/// in order.
pub proof fn expression_models_are_faithful(
    scalar: Scalar,
    index: usize,
    query: Query,
    a: Expression,
    b: Expression,
)
    ensures
        Expression::Constant(scalar)@ == ExpressionView::Constant(scalar@),
        Expression::Selector(index)@ == ExpressionView::Selector(index),
        Expression::Fixed(query)@ == ExpressionView::Fixed(query),
        Expression::Advice(query)@ == ExpressionView::Advice(query),
        Expression::Instance(query)@ == ExpressionView::Instance(query),
        Expression::Challenge(index)@ == ExpressionView::Challenge(index),
        Expression::Negated(Box::new(a))@ == ExpressionView::Negated(Box::new(a@)),
        Expression::Sum(Box::new(a), Box::new(b))@ == ExpressionView::Sum(
            Box::new(a@),
            Box::new(b@),
        ),
        Expression::Product(Box::new(a), Box::new(b))@ == ExpressionView::Product(
            Box::new(a@),
            Box::new(b@),
        ),
        Expression::Scaled(Box::new(a), scalar)@ == ExpressionView::Scaled(
            Box::new(a@),
            scalar@,
        ),
{
}

/// A cell or a challenge stands somewhere in the expression.
pub open spec fn reads_cells(expression: ExpressionView) -> bool
    decreases expression,
{
    match expression {
        ExpressionView::Constant(_) | ExpressionView::Selector(_) => false,
        ExpressionView::Fixed(_) | ExpressionView::Advice(_) => true,
        ExpressionView::Instance(_) | ExpressionView::Challenge(_) => true,
        ExpressionView::Negated(a) | ExpressionView::Scaled(a, _) => reads_cells(*a),
        ExpressionView::Sum(a, b) | ExpressionView::Product(a, b) => reads_cells(*a)
            || reads_cells(*b),
    }
}

/// An expression has a constant value exactly where neither a cell nor a
/// challenge stands in it.
pub proof fn only_cells_have_no_constant_value(expression: ExpressionView)
    ensures
        expression.const_value() is None <==> reads_cells(expression),
    decreases expression,
{
    match expression {
        ExpressionView::Negated(a) => only_cells_have_no_constant_value(*a),
        ExpressionView::Sum(a, b) => {
            only_cells_have_no_constant_value(*a);
            only_cells_have_no_constant_value(*b);
        },
        ExpressionView::Product(a, b) => {
            only_cells_have_no_constant_value(*a);
            only_cells_have_no_constant_value(*b);
        },
        ExpressionView::Scaled(a, _) => only_cells_have_no_constant_value(*a),
        _ => {},
    }
}

/// Evaluation carries the operations of expressions over to the field: numbers
/// below its order are added, multiplied and negated modulo that order.
pub proof fn evaluation_is_arithmetic_in_the_field(
    a: ExpressionView,
    b: ExpressionView,
    factor: nat,
    cell: spec_fn(ExpressionView) -> nat,
)
    ensures
        ExpressionView::Constant(factor).eval(cell) == factor,
        ExpressionView::Sum(Box::new(a), Box::new(b)).eval(cell) == (a.eval(cell) + b.eval(cell))
            % 0x73eda753299d7d483339d80809a1d80553bda402fffe5bfeffffffff00000001nat,
        ExpressionView::Product(Box::new(a), Box::new(b)).eval(cell) == (a.eval(cell) * b.eval(
            cell,
        )) % 0x73eda753299d7d483339d80809a1d80553bda402fffe5bfeffffffff00000001nat,
        ExpressionView::Scaled(Box::new(a), factor).eval(cell) == (a.eval(cell) * factor)
            % 0x73eda753299d7d483339d80809a1d80553bda402fffe5bfeffffffff00000001nat,
        a.eval(cell) <= 0x73eda753299d7d483339d80809a1d80553bda402fffe5bfeffffffff00000001nat ==> (
        a.eval(cell) + ExpressionView::Negated(Box::new(a)).eval(cell))
            % 0x73eda753299d7d483339d80809a1d80553bda402fffe5bfeffffffff00000001nat == 0,
{
    if a.eval(cell) <= modulus() {
        field_operations_are_modular(a.eval(cell), 0);
    }
}

} // verus!
