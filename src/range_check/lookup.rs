//! The range check with a flat lookup table: small claimed ranges use the
//! polynomial gate, large ones a lookup into a table of `[0, lookup_range)`.
use vstd::prelude::*;
use crate::field::{Fe, f_mul, modulus};
use crate::expression::{Column, ColumnKind, Expression, Selector, eval, expr_in_bounds, grid_index};
use crate::constraint_system::{ConfigError, ConstraintSystem, Lookup, lookup_error, table_side_ok};
use crate::prover::{lookup_holds, row_matches};
use crate::range_check::{is_range_gate, lemma_range_expr_in_bounds, range_check_expr, value_cells};
use crate::witness::{
    AssignError, Witness, WitnessView, cell_values, column_holds, row_assigned, row_error, row_fits,
    table_error, table_value, view_wf, with_table,
};

verus! {

/// The rows of a flat table: `0, 1, ..., range - 1`.
pub open spec fn flat_values(range: nat) -> Seq<int> {
    Seq::new(range, |i: int| i)
}

/// A one-column lookup table holding `[0, range)`.
#[derive(Clone, Copy, Debug)]
pub struct RangeCheckTable {
    pub value: Column,
    pub range: usize,
}

impl RangeCheckTable {
    /// Allocates the table column.
    pub fn configure(cs: &mut ConstraintSystem, range: usize) -> (r: RangeCheckTable)
        requires
            old(cs).wf(),
            old(cs).kinds@.len() < usize::MAX,
        ensures
            final(cs).wf(),
            r.value == (Column { index: old(cs).kinds@.len() as usize, kind: ColumnKind::Fixed }),
            r.range == range,
            final(cs).kinds@ == old(cs).kinds@.push(ColumnKind::Fixed),
            final(cs).selectors@ == old(cs).selectors@,
            final(cs).gates@ == old(cs).gates@,
            final(cs).lookups@ == old(cs).lookups@,
    {
        let value = cs.lookup_table_column();
        RangeCheckTable { value, range }
    }

    /// Writes the values `[0, range)` into the table column. Loading again
    /// writes the same rows.
    pub fn load(&self, w: &mut Witness) -> (r: Result<(), AssignError>)
        requires
            old(w).wf(),
        ensures
            final(w).wf(),
            table_error(old(w)@, self.value, self.range as int) matches Some(e) ==> (r == Err::<(), AssignError>(e)
                && final(w)@ == old(w)@),
            table_error(old(w)@, self.value, self.range as int) is None ==> (r is Ok && final(w)@
                == with_table(old(w)@, self.value.index as int, flat_values(self.range as nat))),
    {
        let mut vals: Vec<Fe> = Vec::new();
        let mut i: usize = 0;
        while i < self.range
            invariant
                i <= self.range,
                vals@.len() == i,
                forall|j: int| 0 <= j < i ==> (#[trigger] vals@[j])@ == j,
            decreases self.range - i,
        {
            vals.push(Fe::from_u64(i as u64));
            i = i + 1;
        }
        assert(vals@.map_values(|f: Fe| f@) =~= flat_values(self.range as nat));
        w.assign_table(self.value, &vals)
    }
}

/// Loading a flat table twice gives what loading it once gives.
pub proof fn lemma_flat_load_idempotent(v: WitnessView, table: RangeCheckTable)
    ensures
        with_table(with_table(v, table.value.index as int, flat_values(table.range as nat)), table.value.index as int, flat_values(table.range as nat))
            == with_table(v, table.value.index as int, flat_values(table.range as nat)),
        table_error(with_table(v, table.value.index as int, flat_values(table.range as nat)), table.value, table.range as int)
            == table_error(v, table.value, table.range as int),
{
    crate::witness::lemma_table_load_idempotent(v, table.value, flat_values(table.range as nat));
}

/// `l` looks up `q * value` in the table column `table`.
pub open spec fn is_flat_lookup(l: Lookup, q: Selector, value: Column, table: Column) -> bool {
    &&& l.pairs@.len() == 1
    &&& l.pairs@[0].0 == Expression::Product(
        Box::new(Expression::Selector(q)),
        Box::new(Expression::Query(value, 0)),
    )
    &&& l.pairs@[0].1 == table
}

/// Exact membership in a loaded flat table: some row holds `x` exactly when
/// `x` lies in `[0, range)`.
pub proof fn lemma_flat_table_membership(w: WitnessView, table: Column, range: nat, x: int)
    requires
        view_wf(w),
        table.index < w.kinds.len(),
        0 < range <= w.n_rows,
        column_holds(w, table.index as int, flat_values(range)),
    ensures
        (exists|trow: int| 0 <= trow < w.n_rows && #[trigger] w.cells[grid_index(table.index as int, trow, w.n_rows as int)] == x)
            <==> 0 <= x < range,
{
    let vals = flat_values(range);
    if 0 <= x < range {
        assert(w.cells[grid_index(table.index as int, x, w.n_rows as int)] == table_value(vals, x));
    }
    if exists|trow: int| 0 <= trow < w.n_rows && #[trigger] w.cells[grid_index(table.index as int, trow, w.n_rows as int)] == x {
        let trow = choose|trow: int| 0 <= trow < w.n_rows && #[trigger] w.cells[grid_index(table.index as int, trow, w.n_rows as int)] == x;
        assert(w.cells[grid_index(table.index as int, trow, w.n_rows as int)] == table_value(vals, trow));
    }
}

/// The flat lookup holds at `row` exactly when its selector is off there or
/// the checked value lies in `[0, range)`.
pub proof fn lemma_flat_lookup_holds(w: WitnessView, l: Lookup, q: Selector, value: Column, table: Column, range: nat, row: int)
    requires
        view_wf(w),
        is_flat_lookup(l, q, value, table),
        table.index < w.kinds.len(),
        value.index < w.kinds.len(),
        0 < range <= w.n_rows,
        range <= modulus(),
        0 <= row < w.n_rows,
        0 <= w.cells[grid_index(value.index as int, row, w.n_rows as int)] < modulus(),
        column_holds(w, table.index as int, flat_values(range)),
    ensures
        lookup_holds(l, w, row) <==> (w.enabled[grid_index(q.index as int, row, w.n_rows as int)] ==> 0
            <= w.cells[grid_index(value.index as int, row, w.n_rows as int)] < range),
{
    let v = w.cells[grid_index(value.index as int, row, w.n_rows as int)];
    let on = w.enabled[grid_index(q.index as int, row, w.n_rows as int)];
    let input = if on { v } else { 0 };
    assert(f_mul(1, v) == v);
    assert(f_mul(0, v) == 0);
    match l.pairs@[0].0 {
        Expression::Product(a, b) => {
            assert(eval(*b, w, row) == Some(v));
            assert(eval(*a, w, row) == Some(if on { 1int } else { 0int }));
        },
        _ => {},
    }
    assert(eval(l.pairs@[0].0, w, row) == Some(input));
    lemma_flat_table_membership(w, table, range, input);
    if lookup_holds(l, w, row) {
        let trow = choose|trow: int| 0 <= trow < w.n_rows && #[trigger] row_matches(l, w, row, trow);
        assert(eval(l.pairs@[0].0, w, row) == Some(w.cells[grid_index(table.index as int, trow, w.n_rows as int)]));
    }
    if 0 <= input < range {
        let trow = choose|trow: int| 0 <= trow < w.n_rows && #[trigger] w.cells[grid_index(table.index as int, trow, w.n_rows as int)] == input;
        assert(row_matches(l, w, row, trow));
    }
}

/// The range check that switches between the polynomial gate and the flat lookup.
#[derive(Clone, Copy, Debug)]
pub struct RangeCheckConfig {
    pub value: Column,
    pub q_range_check: Selector,
    pub q_lookup: Selector,
    pub table: RangeCheckTable,
    pub range: usize,
}

impl RangeCheckConfig {
    /// Allocates a simple selector for the polynomial gate, a complex one for the lookup
    /// and the table column; registers the polynomial gate for `[0, range)` and the
    /// lookup of the value into the table of `[0, lookup_range)`.
    pub fn configure(cs: &mut ConstraintSystem, value: Column, range: usize, lookup_range: usize) -> (r: Result<RangeCheckConfig, ConfigError>)
        requires
            old(cs).wf(),
            old(cs).selectors@.len() + 2 <= usize::MAX,
            old(cs).kinds@.len() < usize::MAX,
        ensures
            final(cs).wf(),
            value.index >= old(cs).kinds@.len() ==> (r == Err::<RangeCheckConfig, ConfigError>(
                ConfigError::UnknownColumnOrSelector,
            ) && *final(cs) == *old(cs)),
            value.index < old(cs).kinds@.len() ==> (r matches Ok(cfg) && cfg.value == value && cfg.range
                == range && cfg.table.range == lookup_range
                && cfg.q_range_check == (Selector { index: old(cs).selectors@.len() as usize, simple: true })
                && cfg.q_lookup == (Selector { index: (old(cs).selectors@.len() + 1) as usize, simple: false })
                && cfg.table.value == (Column { index: old(cs).kinds@.len() as usize, kind: ColumnKind::Fixed })
                && final(cs).kinds@ == old(cs).kinds@.push(ColumnKind::Fixed)
                && final(cs).selectors@ == old(cs).selectors@.push(true).push(false)
                && final(cs).gates@.drop_last() == old(cs).gates@
                && final(cs).gates@.len() == old(cs).gates@.len() + 1
                && is_range_gate(final(cs).gates@.last(), cfg.q_range_check, value, range as nat)
                && final(cs).lookups@.drop_last() == old(cs).lookups@
                && final(cs).lookups@.len() == old(cs).lookups@.len() + 1
                && is_flat_lookup(final(cs).lookups@.last(), cfg.q_lookup, value, cfg.table.value)),
    {
        if value.index >= cs.kinds.len() {
            return Err(ConfigError::UnknownColumnOrSelector);
        }
        let q_range_check = cs.selector();
        let q_lookup = cs.complex_selector();
        let table = RangeCheckTable::configure(cs, lookup_range);
        let e = range_check_expr(range, &Expression::Query(value, 0));
        let poly = Expression::Product(Box::new(Expression::Selector(q_range_check)), Box::new(e));
        proof {
            lemma_range_expr_in_bounds(e, range as nat, Expression::Query(value, 0), cs.kinds@.len(), cs.selectors@.len());
            assert(expr_in_bounds(Expression::Selector(q_range_check), cs.kinds@.len(), cs.selectors@.len()));
            assert(expr_in_bounds(poly, cs.kinds@.len(), cs.selectors@.len()));
        }
        let mut polys: Vec<Expression> = Vec::new();
        polys.push(poly);
        let ghost old_gates = cs.gates@;
        let res = cs.create_gate(String::from_str("range check"), q_range_check, polys);
        assert(res is Ok);
        let input = Expression::Product(Box::new(Expression::Selector(q_lookup)), Box::new(Expression::Query(value, 0)));
        let mut pairs: Vec<(Expression, Column)> = Vec::new();
        pairs.push((input, table.value));
        let ghost old_lookups = cs.lookups@;
        proof {
            assert(expr_in_bounds(Expression::Selector(q_lookup), cs.kinds@.len(), cs.selectors@.len()));
            assert(expr_in_bounds(Expression::Query(value, 0), cs.kinds@.len(), cs.selectors@.len()));
            assert(expr_in_bounds(input, cs.kinds@.len(), cs.selectors@.len()));
            assert(!crate::expression::uses_simple_selector(Expression::Selector(q_lookup)));
            assert(!crate::expression::uses_simple_selector(Expression::Query(value, 0)));
            assert(!crate::expression::uses_simple_selector(input));
            assert(pairs@[0].0 == input);
            assert(table_side_ok(pairs@[0].1, cs.kinds@));
            assert(lookup_error(pairs@, cs.kinds@, cs.selectors@.len()) is None);
        }
        let res2 = cs.lookup(String::from_str("range check lookup"), pairs);
        assert(res2 is Ok);
        proof {
            assert(cs.gates@.drop_last() =~= old_gates);
            assert(cs.lookups@.drop_last() =~= old_lookups);
        }
        Ok(RangeCheckConfig { value, q_range_check, q_lookup, table, range })
    }

    /// The selector that a claimed range turns on: the polynomial gate below `range`,
    /// the lookup from there on.
    pub open spec fn selector_for(&self, claimed: nat) -> Selector {
        if claimed < self.range {
            self.q_range_check
        } else {
            self.q_lookup
        }
    }

    /// Places `value` in a new one-row region under the check that the
    /// claimed range calls for. The claimed range never exceeds the table.
    pub fn assign(&self, w: &mut Witness, value: Fe, range: usize) -> (r: Result<(), AssignError>)
        requires
            old(w).wf(),
            range <= self.table.range,
        ensures
            final(w).wf(),
            row_fits(old(w)@, self.selector_for(range as nat), value_cells(self.value, value@)) ==> (r is Ok
                && final(w)@ == row_assigned(old(w)@, self.selector_for(range as nat), value_cells(self.value, value@))),
            row_error(old(w)@, self.selector_for(range as nat), value_cells(self.value, value@)) matches Some(e) ==> (r
                == Err::<(), AssignError>(e) && final(w)@ == old(w)@),
    {
        let mut cells: Vec<(Column, Fe)> = Vec::new();
        cells.push((self.value, value));
        assert(cell_values(cells@) =~= value_cells(self.value, value@));
        let sel = if range < self.range {
            self.q_range_check
        } else {
            self.q_lookup
        };
        w.assign_row(sel, &cells)?;
        Ok(())
    }
}

} // verus!
