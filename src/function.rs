//! A chip computing `f(a, b, c) = if a == b { c } else { a - b }`, built on
//! the IsZero gadget.
use vstd::prelude::*;
use vstd::arithmetic::div_mod::lemma_add_mod_noop_right;
use crate::field::{Fe, f_add, f_invert_or_zero, f_mul, f_neg, f_sub, modulus};
use crate::expression::{Column, ColumnKind, Expression, Selector, eval, expr_in_bounds, grid_index};
use crate::constraint_system::{ConstraintSystem, Gate};
use crate::prover::poly_holds;
use crate::is_zero::{IsZeroChip, IsZeroConfig, indicator, is_indicator, is_one_minus, is_zero_gate, lemma_indicator, lemma_one_minus_in_bounds, minus};
use crate::witness::{AssignError, AssignedCell, Witness, WitnessView, cell_values, row_assigned, row_error, row_fits};

verus! {

/// The columns, selector and indicator of the chip.
#[derive(Debug)]
pub struct FunctionConfig {
    pub selector: Selector,
    pub a: Column,
    pub b: Column,
    pub c: Column,
    pub a_equals_b: IsZeroConfig,
    pub output: Column,
}

/// `f(a, b, c)`.
pub open spec fn function_output(a: int, b: int, c: int) -> int {
    if a == b {
        c
    } else {
        f_sub(a, b)
    }
}

/// The cells one assignment writes: the inputs, the inverse of `a - b` (or
/// zero) and the output.
pub open spec fn function_cells(cfg: FunctionConfig, a: int, b: int, c: int) -> Seq<(Column, int)> {
    seq![
        (cfg.a, a),
        (cfg.b, b),
        (cfg.c, c),
        (cfg.a_equals_b.value_inv, f_invert_or_zero(f_sub(a, b))),
        (cfg.output, function_output(a, b, c)),
    ]
}

/// `g` holds the two polynomials of the chip:
/// `s * (is_zero * (output - c))` and `s * (1 - is_zero) * (output - (a - b))`.
pub open spec fn is_function_gate(g: Gate, cfg: FunctionConfig) -> bool {
    let s = Expression::Selector(cfg.selector);
    let iz = cfg.a_equals_b.is_zero_expr;
    let out = Expression::Query(cfg.output, 0);
    let a_minus_b = minus(Expression::Query(cfg.a, 0), Expression::Query(cfg.b, 0));
    &&& g.selector == cfg.selector
    &&& g.polys@.len() == 2
    &&& g.polys@[0] == Expression::Product(
        Box::new(s),
        Box::new(Expression::Product(Box::new(iz), Box::new(minus(out, Expression::Query(cfg.c, 0))))),
    )
    &&& match g.polys@[1] {
        Expression::Product(x, y) => *y == minus(out, a_minus_b) && match *x {
            Expression::Product(s2, om) => *s2 == s && is_one_minus(*om, iz),
            _ => false,
        },
        _ => false,
    }
}

#[derive(Debug)]
pub struct FunctionChip {
    pub config: FunctionConfig,
}

impl FunctionChip {
    pub fn construct(config: FunctionConfig) -> (r: FunctionChip)
        ensures
            r.config == config,
    {
        FunctionChip { config }
    }

    /// Allocates the selector and the columns `a`, `b`, `c`, `output` and the
    /// inverse column, configures IsZero on `a - b`, and registers the polynomial gate
    /// of the chip.
    pub fn configure(cs: &mut ConstraintSystem) -> (r: FunctionConfig)
        requires
            old(cs).wf(),
            old(cs).kinds@.len() + 5 <= usize::MAX,
            old(cs).selectors@.len() < usize::MAX,
        ensures
            final(cs).wf(),
            r.selector == (Selector { index: old(cs).selectors@.len() as usize, simple: true }),
            r.a == (Column { index: old(cs).kinds@.len() as usize, kind: ColumnKind::Advice }),
            r.b == (Column { index: (old(cs).kinds@.len() + 1) as usize, kind: ColumnKind::Advice }),
            r.c == (Column { index: (old(cs).kinds@.len() + 2) as usize, kind: ColumnKind::Advice }),
            r.output == (Column { index: (old(cs).kinds@.len() + 3) as usize, kind: ColumnKind::Advice }),
            r.a_equals_b.value_inv == (Column { index: (old(cs).kinds@.len() + 4) as usize, kind: ColumnKind::Advice }),
            final(cs).kinds@ == old(cs).kinds@ + seq![ColumnKind::Advice, ColumnKind::Advice, ColumnKind::Advice, ColumnKind::Advice, ColumnKind::Advice],
            final(cs).selectors@ == old(cs).selectors@.push(true),
            final(cs).lookups@ == old(cs).lookups@,
            final(cs).gates@.len() == old(cs).gates@.len() + 2,
            final(cs).gates@.subrange(0, old(cs).gates@.len() as int) == old(cs).gates@,
            is_indicator(
                r.a_equals_b.is_zero_expr,
                minus(Expression::Query(r.a, 0), Expression::Query(r.b, 0)),
                r.a_equals_b.value_inv,
            ),
            is_zero_gate(
                final(cs).gates@[old(cs).gates@.len() as int],
                r.selector,
                minus(Expression::Query(r.a, 0), Expression::Query(r.b, 0)),
                r.a_equals_b.is_zero_expr,
            ),
            is_function_gate(final(cs).gates@.last(), r),
    {
        let ghost old_gates = cs.gates@;
        let ghost old_kinds = cs.kinds@;
        let selector = cs.selector();
        let a = cs.advice_column();
        let b = cs.advice_column();
        let c = cs.advice_column();
        let output = cs.advice_column();
        let is_zero_advice_column = cs.advice_column();
        let value = Expression::Query(a, 0).minus(Expression::Query(b, 0));
        proof {
            assert(expr_in_bounds(Expression::Query(a, 0), cs.kinds@.len(), cs.selectors@.len()));
            assert(expr_in_bounds(Expression::Query(b, 0), cs.kinds@.len(), cs.selectors@.len()));
            assert(expr_in_bounds(Expression::Negated(Box::new(Expression::Query(b, 0))), cs.kinds@.len(), cs.selectors@.len()));
            assert(expr_in_bounds(value, cs.kinds@.len(), cs.selectors@.len()));
        }
        let a_equals_b = IsZeroChip::configure(cs, selector, value, is_zero_advice_column);
        let ghost mid_gates = cs.gates@;
        let s = Expression::Selector(selector);
        let qa = Expression::Query(a, 0);
        let qb = Expression::Query(b, 0);
        let qc = Expression::Query(c, 0);
        let qout = Expression::Query(output, 0);
        let p0 = s.duplicate().times(a_equals_b.expr().times(qout.duplicate().minus(qc)));
        let one_minus = Expression::Constant(Fe::one()).minus(a_equals_b.expr());
        let p1 = s.times(one_minus).times(qout.minus(qa.minus(qb)));
        proof {
            let n_c = cs.kinds@.len();
            let n_s = cs.selectors@.len();
            let prod = Expression::Product(Box::new(value), Box::new(Expression::Query(is_zero_advice_column, 0)));
            assert(expr_in_bounds(Expression::Query(is_zero_advice_column, 0), n_c, n_s));
            assert(expr_in_bounds(prod, n_c, n_s));
            lemma_one_minus_in_bounds(a_equals_b.is_zero_expr, prod, n_c, n_s);
            lemma_one_minus_in_bounds(one_minus, a_equals_b.is_zero_expr, n_c, n_s);
            assert(expr_in_bounds(s, n_c, n_s));
            assert(expr_in_bounds(qc, n_c, n_s));
            assert(expr_in_bounds(qout, n_c, n_s));
            assert(expr_in_bounds(Expression::Negated(Box::new(qc)), n_c, n_s));
            assert(expr_in_bounds(minus(qout, qc), n_c, n_s));
            assert(expr_in_bounds(Expression::Product(Box::new(a_equals_b.is_zero_expr), Box::new(minus(qout, qc))), n_c, n_s));
            assert(expr_in_bounds(p0, n_c, n_s));
            assert(expr_in_bounds(minus(qa, qb), n_c, n_s));
            assert(expr_in_bounds(Expression::Negated(Box::new(minus(qa, qb))), n_c, n_s));
            assert(expr_in_bounds(minus(qout, minus(qa, qb)), n_c, n_s));
            assert(expr_in_bounds(Expression::Product(Box::new(s), Box::new(one_minus)), n_c, n_s));
            assert(expr_in_bounds(p1, n_c, n_s));
        }
        let mut polys: Vec<Expression> = Vec::new();
        polys.push(p0);
        polys.push(p1);
        let res = cs.create_gate(String::from_str("f(a, b, c) = if a == b {c} else {a - b}"), selector, polys);
        assert(res is Ok);
        let cfg = FunctionConfig { selector, a, b, c, a_equals_b, output };
        proof {
            assert(cs.kinds@ =~= old_kinds + seq![ColumnKind::Advice, ColumnKind::Advice, ColumnKind::Advice, ColumnKind::Advice, ColumnKind::Advice]);
            assert(cs.gates@.subrange(0, old_gates.len() as int) =~= old_gates);
            assert(cs.gates@[old_gates.len() as int] == mid_gates.last());
        }
        cfg
    }

    /// Places one evaluation of the chip in a new one-row region: the
    /// selector, the inputs, the inverse of `a - b` (or zero) and the output.
    /// All or nothing; returns the output cell.
    pub fn assign(&self, w: &mut Witness, a: Fe, b: Fe, c: Fe) -> (r: Result<AssignedCell, AssignError>)
        requires
            old(w).wf(),
        ensures
            final(w).wf(),
            row_fits(old(w)@, self.config.selector, function_cells(self.config, a@, b@, c@)) ==> (r matches Ok(
                cell,
            ) && cell.column == self.config.output && cell.row == old(w)@.next_row && cell.value@
                == function_output(a@, b@, c@) && final(w)@ == row_assigned(
                old(w)@,
                self.config.selector,
                function_cells(self.config, a@, b@, c@),
            )),
            row_error(old(w)@, self.config.selector, function_cells(self.config, a@, b@, c@)) matches Some(e) ==> (r
                matches Err(x) && x == e && final(w)@ == old(w)@),
    {
        let is_zero_chip = IsZeroChip::construct(
            IsZeroConfig { value_inv: self.config.a_equals_b.value_inv, is_zero_expr: self.config.a_equals_b.expr() },
        );
        let diff = a.sub(&b);
        let inv_cell = is_zero_chip.assign(&diff);
        let output = if a.equals(&b) {
            c
        } else {
            diff
        };
        let mut cells: Vec<(Column, Fe)> = Vec::new();
        cells.push((self.config.a, a));
        cells.push((self.config.b, b));
        cells.push((self.config.c, c));
        cells.push(inv_cell);
        cells.push((self.config.output, output));
        assert(cell_values(cells@) =~= function_cells(self.config, a@, b@, c@));
        let row = w.assign_row(self.config.selector, &cells)?;
        Ok(AssignedCell { column: self.config.output, row, value: output })
    }
}

/// One instance of the chip's inputs.
#[derive(Clone, Copy, Debug)]
pub struct FunctionCircuit {
    pub a: Fe,
    pub b: Fe,
    pub c: Fe,
}

impl FunctionCircuit {
    /// The same circuit with every input zero.
    pub fn without_witnesses(&self) -> (r: FunctionCircuit)
        ensures
            r.a@ == 0 && r.b@ == 0 && r.c@ == 0,
    {
        FunctionCircuit { a: Fe::zero(), b: Fe::zero(), c: Fe::zero() }
    }

    pub fn configure(cs: &mut ConstraintSystem) -> (r: FunctionConfig)
        requires
            old(cs).wf(),
            old(cs).kinds@.len() + 5 <= usize::MAX,
            old(cs).selectors@.len() < usize::MAX,
        ensures
            final(cs).wf(),
            r.selector == (Selector { index: old(cs).selectors@.len() as usize, simple: true }),
            r.a == (Column { index: old(cs).kinds@.len() as usize, kind: ColumnKind::Advice }),
            r.b == (Column { index: (old(cs).kinds@.len() + 1) as usize, kind: ColumnKind::Advice }),
            r.c == (Column { index: (old(cs).kinds@.len() + 2) as usize, kind: ColumnKind::Advice }),
            r.output == (Column { index: (old(cs).kinds@.len() + 3) as usize, kind: ColumnKind::Advice }),
            r.a_equals_b.value_inv == (Column { index: (old(cs).kinds@.len() + 4) as usize, kind: ColumnKind::Advice }),
            final(cs).kinds@ == old(cs).kinds@ + seq![ColumnKind::Advice, ColumnKind::Advice, ColumnKind::Advice, ColumnKind::Advice, ColumnKind::Advice],
            final(cs).selectors@ == old(cs).selectors@.push(true),
            final(cs).lookups@ == old(cs).lookups@,
            final(cs).gates@.len() == old(cs).gates@.len() + 2,
            final(cs).gates@.subrange(0, old(cs).gates@.len() as int) == old(cs).gates@,
            is_indicator(
                r.a_equals_b.is_zero_expr,
                minus(Expression::Query(r.a, 0), Expression::Query(r.b, 0)),
                r.a_equals_b.value_inv,
            ),
            is_zero_gate(
                final(cs).gates@[old(cs).gates@.len() as int],
                r.selector,
                minus(Expression::Query(r.a, 0), Expression::Query(r.b, 0)),
                r.a_equals_b.is_zero_expr,
            ),
            is_function_gate(final(cs).gates@.last(), r),
    {
        FunctionChip::configure(cs)
    }

    /// Assigns the chip on this instance's inputs.
    pub fn synthesize(&self, config: FunctionConfig, w: &mut Witness) -> (r: Result<(), AssignError>)
        requires
            old(w).wf(),
        ensures
            final(w).wf(),
            row_fits(old(w)@, config.selector, function_cells(config, self.a@, self.b@, self.c@)) ==> (r is Ok
                && final(w)@ == row_assigned(old(w)@, config.selector, function_cells(config, self.a@, self.b@, self.c@))),
            row_error(old(w)@, config.selector, function_cells(config, self.a@, self.b@, self.c@)) matches Some(e) ==> (
            r == Err::<(), AssignError>(e) && final(w)@ == old(w)@),
    {
        let chip = FunctionChip::construct(config);
        chip.assign(w, self.a, self.b, self.c)?;
        Ok(())
    }
}

/// Row `row` of `w` holds `cells`.
pub open spec fn row_holds(w: WitnessView, row: int, cells: Seq<(Column, int)>) -> bool {
    forall|i: int| 0 <= i < cells.len() ==> #[trigger] w.cells[grid_index(cells[i].0.index as int, row, w.n_rows as int)] == cells[i].1
}

/// Two assignments of the chip on equal inputs to the same witness leave
/// equal witnesses.
pub proof fn lemma_assign_deterministic(v: WitnessView, cfg: FunctionConfig, a1: Fe, b1: Fe, c1: Fe, a2: Fe, b2: Fe, c2: Fe)
    requires
        a1@ == a2@,
        b1@ == b2@,
        c1@ == c2@,
    ensures
        row_error(v, cfg.selector, function_cells(cfg, a1@, b1@, c1@)) == row_error(v, cfg.selector, function_cells(cfg, a2@, b2@, c2@)),
        row_assigned(v, cfg.selector, function_cells(cfg, a1@, b1@, c1@)) == row_assigned(
            v,
            cfg.selector,
            function_cells(cfg, a2@, b2@, c2@),
        ),
{
}

proof fn lemma_cancel(x: int)
    requires
        0 <= x < modulus(),
    ensures
        f_add(x, f_neg(x)) == 0,
{
    lemma_add_mod_noop_right(x, 0 - x, modulus());
}

/// For every pair of inputs, on a row holding what `assign` writes, the
/// IsZero gate and both polynomials of the chip vanish, whether the selector
/// is on or off. Exactly one of the two polynomials is exercised: the first
/// carries the factor `is_zero`, which is zero unless `a == b`; the second
/// carries `1 - is_zero`, which is zero when `a == b`.
pub proof fn lemma_function_gates_hold(cs: &ConstraintSystem, cfg: FunctionConfig, w: WitnessView, g: int, row: int, a: int, b: int, c: int)
    requires
        0 <= g,
        g + 1 < cs.gates@.len(),
        is_indicator(
            cfg.a_equals_b.is_zero_expr,
            minus(Expression::Query(cfg.a, 0), Expression::Query(cfg.b, 0)),
            cfg.a_equals_b.value_inv,
        ),
        is_zero_gate(
            cs.gates@[g],
            cfg.selector,
            minus(Expression::Query(cfg.a, 0), Expression::Query(cfg.b, 0)),
            cfg.a_equals_b.is_zero_expr,
        ),
        is_function_gate(cs.gates@[g + 1], cfg),
        0 <= row < w.n_rows,
        0 <= a < modulus(),
        0 <= b < modulus(),
        0 <= c < modulus(),
        f_sub(a, b) != 0 ==> f_mul(f_sub(a, b), f_invert_or_zero(f_sub(a, b))) == 1,
        row_holds(w, row, function_cells(cfg, a, b, c)),
    ensures
        poly_holds(cs, w, g, 0, row),
        poly_holds(cs, w, g + 1, 0, row),
        poly_holds(cs, w, g + 1, 1, row),
        a == b ==> indicator(f_sub(a, b), f_invert_or_zero(f_sub(a, b))) == 1,
        a != b ==> indicator(f_sub(a, b), f_invert_or_zero(f_sub(a, b))) == 0,
{
    let cells = function_cells(cfg, a, b, c);
    let n = w.n_rows as int;
    let d = f_sub(a, b);
    let inv = f_invert_or_zero(d);
    let out = function_output(a, b, c);
    assert(w.cells[grid_index(cells[0].0.index as int, row, n)] == cells[0].1);
    assert(w.cells[grid_index(cells[1].0.index as int, row, n)] == cells[1].1);
    assert(w.cells[grid_index(cells[2].0.index as int, row, n)] == cells[2].1);
    assert(w.cells[grid_index(cells[3].0.index as int, row, n)] == cells[3].1);
    assert(w.cells[grid_index(cells[4].0.index as int, row, n)] == cells[4].1);
    let qa = Expression::Query(cfg.a, 0);
    let qb = Expression::Query(cfg.b, 0);
    let qc = Expression::Query(cfg.c, 0);
    let qout = Expression::Query(cfg.output, 0);
    let qinv = Expression::Query(cfg.a_equals_b.value_inv, 0);
    assert(eval(qa, w, row) == Some(a));
    assert(eval(qb, w, row) == Some(b));
    assert(eval(qc, w, row) == Some(c));
    assert(eval(qout, w, row) == Some(out));
    assert(eval(qinv, w, row) == Some(inv));
    lemma_add_mod_noop_right(a, 0 - b, modulus());
    let value = minus(qa, qb);
    assert(eval(Expression::Negated(Box::new(qb)), w, row) == Some(f_neg(b)));
    assert(eval(value, w, row) == Some(d));
    let prod = Expression::Product(Box::new(value), Box::new(qinv));
    assert(eval(prod, w, row) == Some(f_mul(d, inv)));
    let iz = cfg.a_equals_b.is_zero_expr;
    match iz {
        Expression::Sum(x, y) => {
            assert(eval(*x, w, row) == Some(1int));
            assert(eval(*y, w, row) == Some(f_neg(f_mul(d, inv))));
        },
        _ => {},
    }
    assert(eval(iz, w, row) == Some(indicator(d, inv)));
    let ind = indicator(d, inv);
    if d == 0 {
        assert(inv == 0);
    }
    lemma_indicator(d, inv);
    if a == b {
        assert(d == 0);
    } else {
        assert(d != 0) by {
            if d == 0 {
                lemma_add_mod_noop_right(a, 0 - b, modulus());
            }
        }
    }
    let s = Expression::Selector(cfg.selector);
    let sv = if w.enabled[grid_index(cfg.selector.index as int, row, n)] { 1int } else { 0int };
    assert(eval(s, w, row) == Some(sv));
    // the IsZero gate
    assert(eval(Expression::Product(Box::new(value), Box::new(iz)), w, row) == Some(f_mul(d, ind)));
    assert(f_mul(sv, 0) == 0);
    assert(poly_holds(cs, w, g, 0, row));
    // first polynomial: s * (is_zero * (output - c))
    lemma_cancel(c);
    assert(eval(Expression::Negated(Box::new(qc)), w, row) == Some(f_neg(c)));
    assert(eval(minus(qout, qc), w, row) == Some(f_add(out, f_neg(c))));
    if a == b {
        assert(f_add(out, f_neg(c)) == 0);
        assert(f_mul(ind, 0) == 0);
    } else {
        assert(f_mul(0, f_add(out, f_neg(c))) == 0);
    }
    assert(eval(Expression::Product(Box::new(iz), Box::new(minus(qout, qc))), w, row) == Some(0int));
    assert(poly_holds(cs, w, g + 1, 0, row));
    // second polynomial: s * (1 - is_zero) * (output - (a - b))
    let p1 = cs.gates@[g + 1].polys@[1];
    match p1 {
        Expression::Product(x, y) => {
            match *x {
                Expression::Product(s2, om) => {
                    match *om {
                        Expression::Sum(k, m) => {
                            assert(eval(*k, w, row) == Some(1int));
                            assert(eval(*m, w, row) == Some(f_neg(ind)));
                        },
                        _ => {},
                    }
                    assert(eval(*om, w, row) == Some(f_add(1, f_neg(ind))));
                    if a == b {
                        lemma_cancel(1);
                        assert(f_mul(sv, 0) == 0);
                    }
                },
                _ => {},
            }
            let omv = f_add(1, f_neg(ind));
            assert(eval(*x, w, row) == Some(f_mul(sv, omv)));
            assert(eval(Expression::Negated(Box::new(value)), w, row) == Some(f_neg(d)));
            assert(eval(*y, w, row) == Some(f_add(out, f_neg(d))));
            if a != b {
                lemma_cancel(d);
                assert(f_mul(f_mul(sv, omv), 0) == 0);
            } else {
                assert(f_mul(0, f_add(out, f_neg(d))) == 0);
            }
        },
        _ => {},
    }
    assert(poly_holds(cs, w, g + 1, 1, row));
}

/// Where two canonical values differ by zero in the field, they are equal.
proof fn lemma_difference_zero(x: int, y: int)
    requires
        0 <= x < modulus(),
        0 <= y < modulus(),
        f_add(x, f_neg(y)) == 0,
    ensures
        x == y,
{
    lemma_add_mod_noop_right(x, 0 - y, modulus());
    assert((x - y) % modulus() == 0);
    if x > y {
        assert((x - y) % modulus() == x - y);
    } else if x < y {
        assert((x - y) % modulus() == x - y + modulus());
    }
}

/// The chip's gate forces its output: on a row where the selector is on,
/// the inputs `a`, `b`, `c` and the inverse of `a - b` (or zero) are
/// witnessed, and both polynomials hold, the output cell holds
/// `if a == b { c } else { a - b }`, whatever value it was given.
pub proof fn lemma_function_gate_forces_output(cs: &ConstraintSystem, cfg: FunctionConfig, w: WitnessView, g: int, row: int, a: int, b: int, c: int)
    requires
        0 <= g < cs.gates@.len(),
        is_indicator(
            cfg.a_equals_b.is_zero_expr,
            minus(Expression::Query(cfg.a, 0), Expression::Query(cfg.b, 0)),
            cfg.a_equals_b.value_inv,
        ),
        is_function_gate(cs.gates@[g], cfg),
        0 <= row < w.n_rows,
        w.enabled[grid_index(cfg.selector.index as int, row, w.n_rows as int)],
        0 <= a < modulus(),
        0 <= b < modulus(),
        0 <= c < modulus(),
        f_sub(a, b) != 0 ==> f_mul(f_sub(a, b), f_invert_or_zero(f_sub(a, b))) == 1,
        w.cells[grid_index(cfg.a.index as int, row, w.n_rows as int)] == a,
        w.cells[grid_index(cfg.b.index as int, row, w.n_rows as int)] == b,
        w.cells[grid_index(cfg.c.index as int, row, w.n_rows as int)] == c,
        w.cells[grid_index(cfg.a_equals_b.value_inv.index as int, row, w.n_rows as int)] == f_invert_or_zero(f_sub(a, b)),
        0 <= w.cells[grid_index(cfg.output.index as int, row, w.n_rows as int)] < modulus(),
        poly_holds(cs, w, g, 0, row),
        poly_holds(cs, w, g, 1, row),
    ensures
        w.cells[grid_index(cfg.output.index as int, row, w.n_rows as int)] == function_output(a, b, c),
{
    let d = f_sub(a, b);
    let inv = f_invert_or_zero(d);
    let out = w.cells[grid_index(cfg.output.index as int, row, w.n_rows as int)];
    let qa = Expression::Query(cfg.a, 0);
    let qb = Expression::Query(cfg.b, 0);
    let qc = Expression::Query(cfg.c, 0);
    let qout = Expression::Query(cfg.output, 0);
    let qinv = Expression::Query(cfg.a_equals_b.value_inv, 0);
    assert(eval(qa, w, row) == Some(a));
    assert(eval(qb, w, row) == Some(b));
    assert(eval(qc, w, row) == Some(c));
    assert(eval(qout, w, row) == Some(out));
    assert(eval(qinv, w, row) == Some(inv));
    lemma_add_mod_noop_right(a, 0 - b, modulus());
    let value = minus(qa, qb);
    assert(eval(Expression::Negated(Box::new(qb)), w, row) == Some(f_neg(b)));
    assert(eval(value, w, row) == Some(d));
    let prod = Expression::Product(Box::new(value), Box::new(qinv));
    assert(eval(prod, w, row) == Some(f_mul(d, inv)));
    let iz = cfg.a_equals_b.is_zero_expr;
    match iz {
        Expression::Sum(x, y) => {
            assert(eval(*x, w, row) == Some(1int));
            assert(eval(*y, w, row) == Some(f_neg(f_mul(d, inv))));
        },
        _ => {},
    }
    let ind = indicator(d, inv);
    assert(eval(iz, w, row) == Some(ind));
    if d == 0 {
        assert(inv == 0);
    }
    lemma_indicator(d, inv);
    if a != b {
        assert(d != 0) by {
            if d == 0 {
                lemma_add_mod_noop_right(a, 0 - b, modulus());
            }
        }
    }
    let s = Expression::Selector(cfg.selector);
    assert(eval(s, w, row) == Some(1int));
    if a == b {
        assert(d == 0);
        assert(ind == 1);
        assert(eval(Expression::Negated(Box::new(qc)), w, row) == Some(f_neg(c)));
        let diff = f_add(out, f_neg(c));
        assert(eval(minus(qout, qc), w, row) == Some(diff));
        assert(eval(Expression::Product(Box::new(iz), Box::new(minus(qout, qc))), w, row) == Some(f_mul(1, diff)));
        assert(f_mul(1, diff) == diff);
        assert(f_mul(1, f_mul(1, diff)) == diff);
        lemma_difference_zero(out, c);
    } else {
        assert(ind == 0);
        let p1 = cs.gates@[g].polys@[1];
        match p1 {
            Expression::Product(x, y) => {
                match *x {
                    Expression::Product(s2, om) => {
                        match *om {
                            Expression::Sum(k, m) => {
                                assert(eval(*k, w, row) == Some(1int));
                                assert(eval(*m, w, row) == Some(f_neg(0)));
                            },
                            _ => {},
                        }
                        assert(f_add(1, f_neg(0)) == 1);
                        assert(eval(*om, w, row) == Some(1int));
                    },
                    _ => {},
                }
                assert(f_mul(1, 1) == 1);
                assert(eval(*x, w, row) == Some(1int));
                assert(eval(Expression::Negated(Box::new(value)), w, row) == Some(f_neg(d)));
                let diff = f_add(out, f_neg(d));
                assert(eval(*y, w, row) == Some(diff));
                assert(f_mul(1, diff) == diff);
                lemma_difference_zero(out, d);
            },
            _ => {},
        }
    }
}

} // verus!
