//! Range checks: a polynomial gate for small ranges, and lookup-based variants
//! (`lookup`, `tagged`) for large ones.
use vstd::prelude::*;
use vstd::arithmetic::div_mod::lemma_add_mod_noop_right;
use crate::field::{Fe, f_add, f_mul, f_neg, modulus};
use crate::expression::{Column, Expression, Selector, eval, expr_in_bounds, grid_index};
use crate::constraint_system::{ConfigError, ConstraintSystem, Gate};
use crate::prover::{poly_holds, satisfied};
use crate::witness::{
    AssignError, AssignedCell, Witness, WitnessView, cell_values, closed, fill_row, lemma_grid_index, opened, row_assigned,
    row_error, row_fits, view_wf, with_cell, with_enabled,
};

pub mod lookup;
pub mod tagged;

verus! {

/// `(0 - x)(1 - x)...(r - 1 - x)` in the field.
pub open spec fn range_product(r: nat, x: int) -> int
    decreases r,
{
    if r == 0 {
        1
    } else {
        f_mul(range_product((r - 1) as nat, x), f_add(r - 1, f_neg(x)))
    }
}

/// `e` is the expression `(0 - value)(1 - value)...(r - 1 - value)`, built
/// left to right from the constant one.
pub open spec fn is_range_expr(e: Expression, r: nat, value: Expression) -> bool
    decreases r,
{
    if r == 0 {
        match e {
            Expression::Constant(c) => c@ == 1,
            _ => false,
        }
    } else {
        match e {
            Expression::Product(a, b) => is_range_expr(*a, (r - 1) as nat, value) && match *b {
                Expression::Sum(c, d) => (match *c {
                    Expression::Constant(k) => k@ == r - 1,
                    _ => false,
                }) && *d == Expression::Negated(Box::new(value)),
                _ => false,
            },
            _ => false,
        }
    }
}

/// `g` is the range-check gate: selector `q` times the range expression of
/// the value in column `value` at the current row.
pub open spec fn is_range_gate(g: Gate, q: Selector, value: Column, r: nat) -> bool {
    &&& g.selector == q
    &&& g.polys@.len() == 1
    &&& match g.polys@[0] {
        Expression::Product(a, b) => *a == Expression::Selector(q) && is_range_expr(
            *b,
            r,
            Expression::Query(value, 0),
        ),
        _ => false,
    }
}

/// Builds the range expression of `value` for the range `[0, range)`.
pub fn range_check_expr(range: usize, value: &Expression) -> (e: Expression)
    ensures
        is_range_expr(e, range as nat, *value),
{
    let mut e = Expression::Constant(Fe::one());
    let mut i: usize = 0;
    while i < range
        invariant
            i <= range,
            is_range_expr(e, i as nat, *value),
        decreases range - i,
    {
        let k = Fe::from_u64(i as u64);
        let factor = Expression::Sum(
            Box::new(Expression::Constant(k)),
            Box::new(Expression::Negated(Box::new(value.duplicate()))),
        );
        e = Expression::Product(Box::new(e), Box::new(factor));
        i = i + 1;
    }
    e
}

/// A range expression mentions only what its value expression mentions.
pub proof fn lemma_range_expr_in_bounds(e: Expression, r: nat, value: Expression, n_columns: nat, n_selectors: nat)
    requires
        is_range_expr(e, r, value),
        expr_in_bounds(value, n_columns, n_selectors),
    ensures
        expr_in_bounds(e, n_columns, n_selectors),
    decreases r,
{
    if r > 0 {
        match e {
            Expression::Product(a, b) => {
                lemma_range_expr_in_bounds(*a, (r - 1) as nat, value, n_columns, n_selectors);
                match *b {
                    Expression::Sum(c, d) => {
                        assert(expr_in_bounds(*d, n_columns, n_selectors));
                        assert(expr_in_bounds(*c, n_columns, n_selectors));
                        assert(expr_in_bounds(*b, n_columns, n_selectors));
                    },
                    _ => {},
                }
            },
            _ => {},
        }
    }
}

/// A range expression evaluates to the range product of its value.
pub proof fn lemma_eval_range_expr(e: Expression, r: nat, value: Expression, w: WitnessView, row: int)
    requires
        is_range_expr(e, r, value),
        eval(value, w, row) is Some,
    ensures
        eval(e, w, row) == Some(range_product(r, eval(value, w, row)->Some_0)),
    decreases r,
{
    if r > 0 {
        match e {
            Expression::Product(a, b) => {
                lemma_eval_range_expr(*a, (r - 1) as nat, value, w, row);
                let x = eval(value, w, row)->Some_0;
                match *b {
                    Expression::Sum(c, d) => {
                        assert(eval(*d, w, row) == Some(f_neg(x)));
                        assert(eval(*c, w, row) == Some(r - 1));
                        assert(eval(*b, w, row) == Some(f_add(r - 1, f_neg(x))));
                    },
                    _ => {},
                }
            },
            _ => {},
        }
    }
}

/// The range product vanishes on every value of `[0, r)`.
pub proof fn lemma_range_product_vanishes(r: nat, x: int)
    requires
        0 <= x < r,
        r <= modulus(),
    ensures
        range_product(r, x) == 0,
    decreases r,
{
    if x == r - 1 {
        lemma_add_mod_noop_right(x, 0 - x, modulus());
        assert(f_add(r - 1, f_neg(x)) == 0);
        assert(f_mul(range_product((r - 1) as nat, x), 0) == 0);
    } else {
        lemma_range_product_vanishes((r - 1) as nat, x);
        assert(f_mul(0, f_add(r - 1, f_neg(x))) == 0);
    }
}

/// The range-check gate vanishes at every row where it is off, and at every
/// row where it is on and the checked value lies in `[0, r)`.
pub proof fn lemma_range_gate_holds(cs: &ConstraintSystem, w: WitnessView, g: int, q: Selector, value: Column, r: nat, row: int)
    requires
        0 <= g < cs.gates@.len(),
        is_range_gate(cs.gates@[g], q, value, r),
        r <= modulus(),
        0 <= row < w.n_rows,
        w.enabled[grid_index(q.index as int, row, w.n_rows as int)] ==> 0 <= w.cells[grid_index(
            value.index as int,
            row,
            w.n_rows as int,
        )] < r,
    ensures
        poly_holds(cs, w, g, 0, row),
{
    let p = cs.gates@[g].polys@[0];
    match p {
        Expression::Product(a, b) => {
            let x = w.cells[grid_index(value.index as int, row, w.n_rows as int)];
            assert(eval(Expression::Query(value, 0), w, row) == Some(x));
            lemma_eval_range_expr(*b, r, Expression::Query(value, 0), w, row);
            if w.enabled[grid_index(q.index as int, row, w.n_rows as int)] {
                lemma_range_product_vanishes(r, x);
                assert(eval(*a, w, row) == Some(1int));
                assert(f_mul(1, 0) == 0);
            } else {
                assert(eval(*a, w, row) == Some(0int));
                assert(f_mul(0, range_product(r, x)) == 0);
            }
        },
        _ => {},
    }
}

/// The polynomial range check: a value column and a simple selector that
/// turns the polynomial gate on.
#[derive(Clone, Copy, Debug)]
pub struct RangeCheckConfig {
    pub value: Column,
    pub q_range_check: Selector,
    pub range: usize,
}

/// The one cell that a range check writes.
pub open spec fn value_cells(col: Column, value: int) -> Seq<(Column, int)> {
    seq![(col, value)]
}

impl RangeCheckConfig {
    /// Allocates the selector and registers the polynomial gate that forces the value in
    /// column `value` into `[0, range)` wherever the selector is on.
    pub fn configure(cs: &mut ConstraintSystem, value: Column, range: usize) -> (r: Result<RangeCheckConfig, ConfigError>)
        requires
            old(cs).wf(),
            old(cs).selectors@.len() < usize::MAX,
        ensures
            final(cs).wf(),
            value.index >= old(cs).kinds@.len() ==> (r == Err::<RangeCheckConfig, ConfigError>(
                ConfigError::UnknownColumnOrSelector,
            ) && *final(cs) == *old(cs)),
            value.index < old(cs).kinds@.len() ==> (r matches Ok(cfg) && cfg.value == value && cfg.range
                == range && cfg.q_range_check == (Selector { index: old(cs).selectors@.len() as usize, simple: true })
                && final(cs).kinds@ == old(cs).kinds@ && final(cs).selectors@ == old(cs).selectors@.push(true)
                && final(cs).lookups@ == old(cs).lookups@ && final(cs).gates@.len() == old(cs).gates@.len() + 1
                && final(cs).gates@.drop_last() == old(cs).gates@ && is_range_gate(
                final(cs).gates@.last(),
                cfg.q_range_check,
                value,
                range as nat,
            )),
    {
        if value.index >= cs.kinds.len() {
            return Err(ConfigError::UnknownColumnOrSelector);
        }
        let q_range_check = cs.selector();
        let e = range_check_expr(range, &Expression::Query(value, 0));
        let poly = Expression::Product(Box::new(Expression::Selector(q_range_check)), Box::new(e));
        proof {
            lemma_range_expr_in_bounds(e, range as nat, Expression::Query(value, 0), cs.kinds@.len(), cs.selectors@.len());
        }
        assert(expr_in_bounds(e, cs.kinds@.len(), cs.selectors@.len()));
        assert(expr_in_bounds(Expression::Selector(q_range_check), cs.kinds@.len(), cs.selectors@.len()));
        assert(expr_in_bounds(poly, cs.kinds@.len(), cs.selectors@.len()));
        let mut polys: Vec<Expression> = Vec::new();
        polys.push(poly);
        let ghost old_gates = cs.gates@;
        let res = cs.create_gate(String::from_str("range check"), q_range_check, polys);
        assert(res is Ok);
        proof {
            assert(cs.gates@.drop_last() =~= old_gates);
        }
        Ok(RangeCheckConfig { value, q_range_check, range })
    }

    /// Places `value` in a new one-row region with the range check on.
    pub fn assign(&self, w: &mut Witness, value: Fe) -> (r: Result<AssignedCell, AssignError>)
        requires
            old(w).wf(),
        ensures
            final(w).wf(),
            row_fits(old(w)@, self.q_range_check, value_cells(self.value, value@)) ==> (r matches Ok(cell)
                && cell.column == self.value && cell.row == old(w)@.next_row && cell.value@ == value@
                && final(w)@ == row_assigned(old(w)@, self.q_range_check, value_cells(self.value, value@))),
            row_error(old(w)@, self.q_range_check, value_cells(self.value, value@)) matches Some(e) ==> (r
                matches Err(x) && x == e && final(w)@ == old(w)@),
    {
        let mut cells: Vec<(Column, Fe)> = Vec::new();
        cells.push((self.value, value));
        assert(cell_values(cells@) =~= value_cells(self.value, value@));
        let row = w.assign_row(self.q_range_check, &cells)?;
        Ok(AssignedCell { column: self.value, row, value })
    }
}

/// A range-check circuit (its one gate, no lookup) on a fresh witness
/// passes once a value of `[0, range)` is assigned.
pub proof fn lemma_range_check_circuit_passes(cs: &ConstraintSystem, cfg: RangeCheckConfig, w0: WitnessView, v: int)
    requires
        cs.gates@.len() == 1,
        cs.gates@[0].polys@.len() == 1,
        cs.lookups@.len() == 0,
        is_range_gate(cs.gates@[0], cfg.q_range_check, cfg.value, cfg.range as nat),
        cfg.range <= modulus(),
        view_wf(w0),
        forall|i: int| 0 <= i < w0.enabled.len() ==> !#[trigger] w0.enabled[i],
        row_fits(w0, cfg.q_range_check, value_cells(cfg.value, v)),
        0 <= v < cfg.range,
    ensures
        satisfied(cs, row_assigned(w0, cfg.q_range_check, value_cells(cfg.value, v))),
{
    let q = cfg.q_range_check;
    let cells = value_cells(cfg.value, v);
    let n = w0.n_rows as int;
    let start = w0.next_row as int;
    let w1 = with_enabled(opened(w0), q.index as int, 0);
    let w2 = fill_row(w1, cells, 1);
    let w = row_assigned(w0, q, cells);
    assert(fill_row(w1, cells, 0) == w1);
    assert(w2 == with_cell(w1, cfg.value.index as int, 0, v));
    assert(w == closed(w2));
    lemma_grid_index(q.index as int, start, w0.n_selectors as int, n);
    lemma_grid_index(cfg.value.index as int, start, w0.kinds.len() as int, n);
    assert forall|g: int, k: int, row: int|
        0 <= g < cs.gates@.len() && 0 <= k < cs.gates@[g].polys@.len() && 0 <= row < w.n_rows implies #[trigger] poly_holds(
        cs,
        w,
        g,
        k,
        row,
    ) by {
        lemma_grid_index(q.index as int, row, w0.n_selectors as int, n);
        if w.enabled[grid_index(q.index as int, row, n)] {
            assert(grid_index(q.index as int, row, n) == grid_index(q.index as int, start, n));
            assert(row == start);
        }
        lemma_range_gate_holds(cs, w, 0, q, cfg.value, cfg.range as nat, row);
    }
}

/// Two assignments of equal values under the same selector (the polynomial
/// or the flat-lookup range check) to the same witness meet the same error
/// or leave equal witnesses.
pub proof fn lemma_range_assign_deterministic(v: WitnessView, sel: Selector, col: Column, x1: Fe, x2: Fe)
    requires
        x1@ == x2@,
    ensures
        row_error(v, sel, value_cells(col, x1@)) == row_error(v, sel, value_cells(col, x2@)),
        row_assigned(v, sel, value_cells(col, x1@)) == row_assigned(v, sel, value_cells(col, x2@)),
{
}

} // verus!
