//! Columns, selectors and polynomial expressions over column queries.
use vstd::prelude::*;
use crate::field::{Fe, f_add, f_mul, f_neg};
use crate::witness::WitnessView;

verus! {

/// What a column holds: private witness values, fixed (table) values, or public inputs.
#[derive(Clone, Copy, Debug, PartialEq, Eq, Structural)]
pub enum ColumnKind {
    Advice,
    Fixed,
    Instance,
}

/// A column of the circuit, identified by its index in the constraint system.
#[derive(Clone, Copy, Debug, PartialEq, Eq, Structural)]
pub struct Column {
    pub index: usize,
    pub kind: ColumnKind,
}

/// A per-row flag. A simple selector may only be used linearly in gates; a
/// complex one may also appear in lookup inputs.
#[derive(Clone, Copy, Debug, PartialEq, Eq, Structural)]
pub struct Selector {
    pub index: usize,
    pub simple: bool,
}

/// A polynomial over selectors and column queries at row offsets.
#[derive(Debug)]
pub enum Expression {
    Constant(Fe),
    Selector(Selector),
    Query(Column, i32),
    Negated(Box<Expression>),
    Sum(Box<Expression>, Box<Expression>),
    Product(Box<Expression>, Box<Expression>),
    Scaled(Box<Expression>, Fe),
}

/// Index of the cell at (`col`, `row`) in a column-major grid of `n_rows` rows.
pub open spec fn grid_index(col: int, row: int, n_rows: int) -> int {
    col * n_rows + row
}

/// All columns and selectors that `e` mentions exist.
pub open spec fn expr_in_bounds(e: Expression, n_columns: nat, n_selectors: nat) -> bool
    decreases e,
{
    match e {
        Expression::Constant(_) => true,
        Expression::Selector(s) => s.index < n_selectors,
        Expression::Query(c, _) => c.index < n_columns,
        Expression::Negated(a) => expr_in_bounds(*a, n_columns, n_selectors),
        Expression::Sum(a, b) => expr_in_bounds(*a, n_columns, n_selectors) && expr_in_bounds(
            *b,
            n_columns,
            n_selectors,
        ),
        Expression::Product(a, b) => expr_in_bounds(*a, n_columns, n_selectors)
            && expr_in_bounds(*b, n_columns, n_selectors),
        Expression::Scaled(a, _) => expr_in_bounds(*a, n_columns, n_selectors),
    }
}

/// `e` mentions a simple selector.
pub open spec fn uses_simple_selector(e: Expression) -> bool
    decreases e,
{
    match e {
        Expression::Constant(_) => false,
        Expression::Selector(s) => s.simple,
        Expression::Query(_, _) => false,
        Expression::Negated(a) => uses_simple_selector(*a),
        Expression::Sum(a, b) => uses_simple_selector(*a) || uses_simple_selector(*b),
        Expression::Product(a, b) => uses_simple_selector(*a) || uses_simple_selector(*b),
        Expression::Scaled(a, _) => uses_simple_selector(*a),
    }
}

/// The value of `e` at `row` of the witness `w`; `None` when a query lands
/// outside the rows of the witness.
pub open spec fn eval(e: Expression, w: WitnessView, row: int) -> Option<int>
    decreases e,
{
    match e {
        Expression::Constant(c) => Some(c@),
        Expression::Selector(s) => Some(
            if w.enabled[grid_index(s.index as int, row, w.n_rows as int)] {
                1int
            } else {
                0int
            },
        ),
        Expression::Query(c, rot) => {
            let r = row + rot;
            if 0 <= r < w.n_rows {
                Some(w.cells[grid_index(c.index as int, r, w.n_rows as int)])
            } else {
                None
            }
        },
        Expression::Negated(a) => match eval(*a, w, row) {
            Some(x) => Some(f_neg(x)),
            None => None,
        },
        Expression::Sum(a, b) => match (eval(*a, w, row), eval(*b, w, row)) {
            (Some(x), Some(y)) => Some(f_add(x, y)),
            _ => None,
        },
        Expression::Product(a, b) => match (eval(*a, w, row), eval(*b, w, row)) {
            (Some(x), Some(y)) => Some(f_mul(x, y)),
            _ => None,
        },
        Expression::Scaled(a, k) => match eval(*a, w, row) {
            Some(x) => Some(f_mul(x, k@)),
            None => None,
        },
    }
}

impl Expression {
    pub fn constant(c: Fe) -> (r: Expression)
        ensures
            r == Expression::Constant(c),
    {
        Expression::Constant(c)
    }

    pub fn query(c: Column, rotation: i32) -> (r: Expression)
        ensures
            r == Expression::Query(c, rotation),
    {
        Expression::Query(c, rotation)
    }

    pub fn selector(s: Selector) -> (r: Expression)
        ensures
            r == Expression::Selector(s),
    {
        Expression::Selector(s)
    }

    pub fn plus(self, other: Expression) -> (r: Expression)
        ensures
            r == Expression::Sum(Box::new(self), Box::new(other)),
    {
        Expression::Sum(Box::new(self), Box::new(other))
    }

    pub fn times(self, other: Expression) -> (r: Expression)
        ensures
            r == Expression::Product(Box::new(self), Box::new(other)),
    {
        Expression::Product(Box::new(self), Box::new(other))
    }

    /// `self - other`, written as a sum with a negation.
    pub fn minus(self, other: Expression) -> (r: Expression)
        ensures
            r == Expression::Sum(Box::new(self), Box::new(Expression::Negated(Box::new(other)))),
    {
        Expression::Sum(Box::new(self), Box::new(Expression::Negated(Box::new(other))))
    }

    /// A structurally equal copy.
    pub fn duplicate(&self) -> (r: Expression)
        ensures
            r == *self,
        decreases self,
    {
        match self {
            Expression::Constant(c) => Expression::Constant(*c),
            Expression::Selector(s) => Expression::Selector(*s),
            Expression::Query(c, rot) => Expression::Query(*c, *rot),
            Expression::Negated(a) => Expression::Negated(Box::new(a.duplicate())),
            Expression::Sum(a, b) => Expression::Sum(Box::new(a.duplicate()), Box::new(b.duplicate())),
            Expression::Product(a, b) => Expression::Product(
                Box::new(a.duplicate()),
                Box::new(b.duplicate()),
            ),
            Expression::Scaled(a, k) => Expression::Scaled(Box::new(a.duplicate()), *k),
        }
    }

    /// Whether every column and selector mentioned is below the given counts.
    pub fn in_bounds(&self, n_columns: usize, n_selectors: usize) -> (r: bool)
        ensures
            r == expr_in_bounds(*self, n_columns as nat, n_selectors as nat),
        decreases self,
    {
        match self {
            Expression::Constant(_) => true,
            Expression::Selector(s) => s.index < n_selectors,
            Expression::Query(c, _) => c.index < n_columns,
            Expression::Negated(a) => a.in_bounds(n_columns, n_selectors),
            Expression::Sum(a, b) => a.in_bounds(n_columns, n_selectors) && b.in_bounds(n_columns, n_selectors),
            Expression::Product(a, b) => a.in_bounds(n_columns, n_selectors) && b.in_bounds(n_columns, n_selectors),
            Expression::Scaled(a, _) => a.in_bounds(n_columns, n_selectors),
        }
    }

    /// Whether the expression mentions a simple selector.
    pub fn has_simple_selector(&self) -> (r: bool)
        ensures
            r == uses_simple_selector(*self),
        decreases self,
    {
        match self {
            Expression::Constant(_) => false,
            Expression::Selector(s) => s.simple,
            Expression::Query(_, _) => false,
            Expression::Negated(a) => a.has_simple_selector(),
            Expression::Sum(a, b) => a.has_simple_selector() || b.has_simple_selector(),
            Expression::Product(a, b) => a.has_simple_selector() || b.has_simple_selector(),
            Expression::Scaled(a, _) => a.has_simple_selector(),
        }
    }
}

} // verus!
