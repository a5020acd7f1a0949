//! The IsZero gadget: an indicator expression that is one where a value is
//! zero and zero elsewhere, kept honest by one gate and an inverse witness.
use vstd::prelude::*;
use crate::field::{Fe, f_add, f_invert_or_zero, f_mul, f_neg, modulus};
use crate::expression::{Column, Expression, Selector, expr_in_bounds};
use crate::constraint_system::{ConstraintSystem, Gate};

verus! {

/// `x - y`, written as a sum with a negation.
pub open spec fn minus(x: Expression, y: Expression) -> Expression {
    Expression::Sum(Box::new(x), Box::new(Expression::Negated(Box::new(y))))
}

/// `e` is `1 - x`.
pub open spec fn is_one_minus(e: Expression, x: Expression) -> bool {
    match e {
        Expression::Sum(a, b) => (match *a {
            Expression::Constant(k) => k@ == 1,
            _ => false,
        }) && *b == Expression::Negated(Box::new(x)),
        _ => false,
    }
}

/// `1 - x` mentions only what `x` mentions.
pub proof fn lemma_one_minus_in_bounds(e: Expression, x: Expression, n_columns: nat, n_selectors: nat)
    requires
        is_one_minus(e, x),
        expr_in_bounds(x, n_columns, n_selectors),
    ensures
        expr_in_bounds(e, n_columns, n_selectors),
{
    match e {
        Expression::Sum(a, b) => {
            assert(expr_in_bounds(*a, n_columns, n_selectors));
            assert(expr_in_bounds(*b, n_columns, n_selectors));
        },
        _ => {},
    }
}

/// `e` is the indicator `1 - value * value_inv`.
pub open spec fn is_indicator(e: Expression, value: Expression, value_inv: Column) -> bool {
    is_one_minus(
        e,
        Expression::Product(Box::new(value), Box::new(Expression::Query(value_inv, 0))),
    )
}

/// The indicator of `x` given the witnessed inverse `inv`.
pub open spec fn indicator(x: int, inv: int) -> int {
    f_add(1, f_neg(f_mul(x, inv)))
}

/// The configuration: the column of the witnessed inverse and the indicator expression.
#[derive(Debug)]
pub struct IsZeroConfig {
    pub value_inv: Column,
    pub is_zero_expr: Expression,
}

impl IsZeroConfig {
    /// The indicator expression, for use in the caller's own gates.
    pub fn expr(&self) -> (r: Expression)
        ensures
            r == self.is_zero_expr,
    {
        self.is_zero_expr.duplicate()
    }
}

/// `g` is the IsZero gate under `q_enable`: `q_enable * (value * indicator)`.
pub open spec fn is_zero_gate(g: Gate, q_enable: Selector, value: Expression, indicator: Expression) -> bool {
    &&& g.selector == q_enable
    &&& g.polys@.len() == 1
    &&& g.polys@[0] == Expression::Product(
        Box::new(Expression::Selector(q_enable)),
        Box::new(Expression::Product(Box::new(value), Box::new(indicator))),
    )
}

#[derive(Debug)]
pub struct IsZeroChip {
    pub config: IsZeroConfig,
}

impl IsZeroChip {
    pub fn construct(config: IsZeroConfig) -> (r: IsZeroChip)
        ensures
            r.config == config,
    {
        IsZeroChip { config }
    }

    /// Registers, under the caller's selector `q_enable`, the polynomial gate
    /// `q_enable * value * (1 - value * value_inv)` and returns the indicator
    /// `1 - value * value_inv`.
    pub fn configure(cs: &mut ConstraintSystem, q_enable: Selector, value: Expression, value_inv: Column) -> (r: IsZeroConfig)
        requires
            old(cs).wf(),
            q_enable.index < old(cs).selectors@.len(),
            expr_in_bounds(value, old(cs).kinds@.len(), old(cs).selectors@.len()),
            value_inv.index < old(cs).kinds@.len(),
        ensures
            final(cs).wf(),
            r.value_inv == value_inv,
            is_indicator(r.is_zero_expr, value, value_inv),
            final(cs).kinds@ == old(cs).kinds@,
            final(cs).selectors@ == old(cs).selectors@,
            final(cs).lookups@ == old(cs).lookups@,
            final(cs).gates@.len() == old(cs).gates@.len() + 1,
            final(cs).gates@.drop_last() == old(cs).gates@,
            is_zero_gate(final(cs).gates@.last(), q_enable, value, r.is_zero_expr),
    {
        let n_c = Ghost(cs.kinds@.len());
        let n_s = Ghost(cs.selectors@.len());
        let one = Expression::Constant(Fe::one());
        let v2 = value.duplicate();
        let product = Expression::Product(Box::new(v2), Box::new(Expression::Query(value_inv, 0)));
        let is_zero_expr = Expression::Sum(Box::new(one), Box::new(Expression::Negated(Box::new(product))));
        let iz2 = is_zero_expr.duplicate();
        let poly = Expression::Product(
            Box::new(Expression::Selector(q_enable)),
            Box::new(Expression::Product(Box::new(value), Box::new(iz2))),
        );
        proof {
            assert(expr_in_bounds(Expression::Selector(q_enable), n_c@, n_s@));
            assert(expr_in_bounds(one, n_c@, n_s@));
            assert(expr_in_bounds(Expression::Query(value_inv, 0), n_c@, n_s@));
            assert(expr_in_bounds(product, n_c@, n_s@));
            assert(expr_in_bounds(Expression::Negated(Box::new(product)), n_c@, n_s@));
            assert(expr_in_bounds(is_zero_expr, n_c@, n_s@));
            assert(expr_in_bounds(Expression::Product(Box::new(value), Box::new(iz2)), n_c@, n_s@));
            assert(expr_in_bounds(poly, n_c@, n_s@));
        }
        let mut polys: Vec<Expression> = Vec::new();
        polys.push(poly);
        let ghost old_gates = cs.gates@;
        let res = cs.create_gate(String::from_str("is_zero"), q_enable, polys);
        assert(res is Ok);
        proof {
            assert(cs.gates@.drop_last() =~= old_gates);
        }
        IsZeroConfig { value_inv, is_zero_expr }
    }

    /// The cell to witness for `value`: its inverse, or zero when it is zero.
    pub fn assign(&self, value: &Fe) -> (r: (Column, Fe))
        ensures
            r.0 == self.config.value_inv,
            r.1@ == f_invert_or_zero(value@),
            value@ != 0 ==> f_mul(value@, r.1@) == 1,
    {
        (self.config.value_inv, value.invert_or_zero())
    }
}

/// With the inverse that `assign` witnesses, the indicator is one exactly on
/// zero and zero elsewhere, and `value * indicator` always vanishes.
pub proof fn lemma_indicator(x: int, inv: int)
    requires
        0 <= x < modulus(),
        x == 0 ==> inv == 0,
        x != 0 ==> f_mul(x, inv) == 1,
    ensures
        x == 0 ==> indicator(x, inv) == 1,
        x != 0 ==> indicator(x, inv) == 0,
        f_mul(x, indicator(x, inv)) == 0,
{
    if x == 0 {
        assert(f_mul(0, inv) == 0);
        assert(f_add(1, f_neg(0)) == 1);
        assert(f_mul(0, 1) == 0);
    } else {
        assert(f_add(1, f_neg(1)) == 0);
        assert(f_mul(x, 0) == 0);
    }
}

} // verus!
