//! The range check with a tiered table: each row pairs a value with its
//! bit length, so one table serves range checks of any bit length up to
//! its own.
use vstd::prelude::*;
use crate::field::{Fe, f_add, f_mul, f_neg, modulus};
use crate::expression::{Column, ColumnKind, Expression, Selector, eval, expr_in_bounds, grid_index, uses_simple_selector};
use crate::constraint_system::{ConfigError, ConstraintSystem, Lookup, lookup_error, table_side_ok};
use crate::prover::{lookup_holds, row_matches};
use crate::range_check::{is_range_gate, lemma_range_expr_in_bounds, range_check_expr};
use crate::witness::{
    AssignError, Witness, WitnessView, cell_values, column_holds, lemma_with_table_holds, lemma_with_table_keeps,
    row_assigned, row_error, row_fits, table_error, table_value, view_wf, with_table,
};

verus! {

/// The number of bits of `v`, with zero counted as a one-bit value.
pub open spec fn bit_length(v: nat) -> nat
    decreases v,
{
    if v < 2 {
        1
    } else {
        1 + bit_length(v / 2)
    }
}

pub open spec fn two_to(n: nat) -> nat
    decreases n,
{
    if n == 0 {
        1
    } else {
        2 * two_to((n - 1) as nat)
    }
}

/// The value column of a tiered table of `num_bits` bits: `0, 1, ..., 2^num_bits - 1`.
pub open spec fn tiered_values(num_bits: nat) -> Seq<int> {
    Seq::new(two_to(num_bits), |i: int| i)
}

/// The tag column: the bit length of the value on the same row.
pub open spec fn tiered_tags(num_bits: nat) -> Seq<int> {
    Seq::new(two_to(num_bits), |i: int| bit_length(i as nat) as int)
}

/// Every value of `[2^(b-1), 2^b)` has exactly `b` bits.
pub proof fn lemma_bit_length(b: nat, v: nat)
    requires
        1 <= b,
        two_to((b - 1) as nat) <= v < two_to(b),
    ensures
        bit_length(v) == b,
    decreases b,
{
    if b > 1 {
        assert(two_to((b - 1) as nat) == 2 * two_to((b - 2) as nat));
        lemma_bit_length((b - 1) as nat, v / 2);
    }
}

pub proof fn lemma_two_to_grows(i: nat, n: nat)
    requires
        i <= n,
    ensures
        two_to(i) <= two_to(n),
        i < n ==> 2 * two_to(i) <= two_to(n),
    decreases n - i,
{
    if i < n {
        lemma_two_to_grows(i, (n - 1) as nat);
    }
}

pub proof fn lemma_two_to_exceeds(n: nat)
    ensures
        n < two_to(n),
    decreases n,
{
    if n > 0 {
        lemma_two_to_exceeds((n - 1) as nat);
    }
}

/// A two-column lookup table of (bit length, value) rows for all values
/// below `2^num_bits`; the value zero is tagged with one bit.
#[derive(Clone, Copy, Debug)]
pub struct RangeCheckTable {
    pub num_bits: Column,
    pub value: Column,
    pub max_bits: usize,
    pub range: usize,
}

/// Whether `range == 2^num_bits`.
fn shape_matches(num_bits: usize, range: usize) -> (r: bool)
    ensures
        r == (two_to(num_bits as nat) == range),
{
    proof {
        lemma_two_to_grows(0, num_bits as nat);
    }
    if range == 0 {
        return false;
    }
    let mut p: usize = 1;
    let mut i: usize = 0;
    while i < num_bits
        invariant
            i <= num_bits,
            p == two_to(i as nat),
            p <= range,
        decreases num_bits - i,
    {
        proof {
            lemma_two_to_grows(i as nat, num_bits as nat);
        }
        if p > range / 2 {
            return false;
        }
        p = p * 2;
        i = i + 1;
    }
    p == range
}

impl RangeCheckTable {
    /// Allocates the value and tag columns; refused unless `range == 2^num_bits`.
    pub fn configure(cs: &mut ConstraintSystem, num_bits: usize, range: usize) -> (r: Result<RangeCheckTable, ConfigError>)
        requires
            old(cs).wf(),
            old(cs).kinds@.len() + 2 <= usize::MAX,
        ensures
            final(cs).wf(),
            two_to(num_bits as nat) != range ==> (r == Err::<RangeCheckTable, ConfigError>(ConfigError::TableShapeMismatch)
                && *final(cs) == *old(cs)),
            two_to(num_bits as nat) == range ==> (r matches Ok(t) && t.max_bits == num_bits && t.range == range
                && t.value == (Column { index: old(cs).kinds@.len() as usize, kind: ColumnKind::Fixed })
                && t.num_bits == (Column { index: (old(cs).kinds@.len() + 1) as usize, kind: ColumnKind::Fixed })
                && final(cs).kinds@ == old(cs).kinds@.push(ColumnKind::Fixed).push(ColumnKind::Fixed)
                && final(cs).selectors@ == old(cs).selectors@ && final(cs).gates@ == old(cs).gates@
                && final(cs).lookups@ == old(cs).lookups@),
    {
        if !shape_matches(num_bits, range) {
            return Err(ConfigError::TableShapeMismatch);
        }
        let value = cs.lookup_table_column();
        let num_bits_col = cs.lookup_table_column();
        Ok(RangeCheckTable { num_bits: num_bits_col, value, max_bits: num_bits, range })
    }

    /// The table columns are distinct and `range == 2^max_bits`.
    pub open spec fn wf(&self) -> bool {
        &&& self.num_bits.index != self.value.index
        &&& two_to(self.max_bits as nat) == self.range
    }

    /// The error, if any, that loading this table meets.
    pub open spec fn load_error(&self, v: WitnessView) -> Option<AssignError> {
        match table_error(v, self.num_bits, self.range as int) {
            Some(e) => Some(e),
            None => table_error(v, self.value, self.range as int),
        }
    }

    /// Writes the row (1, 0), then for each bit length `b` from 1 up to
    /// `max_bits` the rows (b, v) for `v` in `[2^(b-1), 2^b)`: the value on
    /// row `i` is `i`. All or nothing; loading again writes the same rows.
    pub fn load(&self, w: &mut Witness) -> (r: Result<(), AssignError>)
        requires
            old(w).wf(),
            self.wf(),
        ensures
            final(w).wf(),
            self.load_error(old(w)@) matches Some(e) ==> (r == Err::<(), AssignError>(e) && final(w)@ == old(w)@),
            self.load_error(old(w)@) is None ==> (r is Ok && final(w)@ == tiered_loaded(old(w)@, *self)),
    {
        if let Some(e) = w.table_check(self.num_bits, self.range) {
            return Err(e);
        }
        if let Some(e) = w.table_check(self.value, self.range) {
            return Err(e);
        }
        let mut tags: Vec<Fe> = Vec::new();
        let mut vals: Vec<Fe> = Vec::new();
        tags.push(Fe::one());
        vals.push(Fe::zero());
        proof {
            lemma_two_to_exceeds(self.max_bits as nat);
        }
        let mut b: usize = 1;
        while b <= self.max_bits
            invariant
                self.wf(),
                self.max_bits < self.range,
                1 <= b <= self.max_bits + 1,
                vals@.len() == two_to((b - 1) as nat),
                tags@.len() == vals@.len(),
                forall|i: int| 0 <= i < vals@.len() ==> (#[trigger] vals@[i])@ == i,
                forall|i: int| 0 <= i < tags@.len() ==> (#[trigger] tags@[i])@ == bit_length(i as nat),
            decreases self.max_bits + 1 - b,
        {
            proof {
                lemma_two_to_grows(b as nat, self.max_bits as nat);
                assert(two_to(b as nat) == 2 * two_to((b - 1) as nat));
            }
            let start = vals.len();
            let end = 2 * start;
            let tag = Fe::from_u64(b as u64);
            let mut v = start;
            while v < end
                invariant
                    1 <= b <= self.max_bits,
                    start == two_to((b - 1) as nat),
                    end == two_to(b as nat),
                    start <= v <= end,
                    tag@ == b,
                    vals@.len() == v,
                    tags@.len() == v,
                    forall|i: int| 0 <= i < vals@.len() ==> (#[trigger] vals@[i])@ == i,
                    forall|i: int| 0 <= i < tags@.len() ==> (#[trigger] tags@[i])@ == bit_length(i as nat),
                decreases end - v,
            {
                proof {
                    lemma_bit_length(b as nat, v as nat);
                }
                tags.push(tag);
                vals.push(Fe::from_u64(v as u64));
                v = v + 1;
            }
            b = b + 1;
        }
        assert(tags@.map_values(|f: Fe| f@) =~= tiered_tags(self.max_bits as nat));
        assert(vals@.map_values(|f: Fe| f@) =~= tiered_values(self.max_bits as nat));
        let _ = w.assign_table(self.num_bits, &tags);
        let _ = w.assign_table(self.value, &vals);
        Ok(())
    }
}

/// The state that loading `table` into `v` leaves.
pub open spec fn tiered_loaded(v: WitnessView, table: RangeCheckTable) -> WitnessView {
    with_table(
        with_table(v, table.num_bits.index as int, tiered_tags(table.max_bits as nat)),
        table.value.index as int,
        tiered_values(table.max_bits as nat),
    )
}

/// Loading a tiered table twice gives what loading it once gives, and the
/// second load meets no error the first did not.
pub proof fn lemma_tiered_load_idempotent(v: WitnessView, table: RangeCheckTable)
    requires
        table.wf(),
    ensures
        tiered_loaded(tiered_loaded(v, table), table) == tiered_loaded(v, table),
        table.load_error(tiered_loaded(v, table)) == table.load_error(v),
{
    crate::witness::lemma_two_table_load_idempotent(
        v,
        table.num_bits.index as int,
        tiered_tags(table.max_bits as nat),
        table.value.index as int,
        tiered_values(table.max_bits as nat),
    );
}

/// After a load, the two table columns hold the tags and the values.
pub proof fn lemma_tiered_loaded_holds(v: WitnessView, table: RangeCheckTable)
    requires
        view_wf(v),
        table.wf(),
        table.num_bits.index < v.kinds.len(),
        table.value.index < v.kinds.len(),
    ensures
        column_holds(tiered_loaded(v, table), table.num_bits.index as int, tiered_tags(table.max_bits as nat)),
        column_holds(tiered_loaded(v, table), table.value.index as int, tiered_values(table.max_bits as nat)),
{
    let tags = tiered_tags(table.max_bits as nat);
    let mid = with_table(v, table.num_bits.index as int, tags);
    lemma_with_table_holds(v, table.num_bits.index as int, tags);
    assert(view_wf(mid)) by {
        assert(mid.cells.len() == v.cells.len());
    }
    lemma_with_table_holds(mid, table.value.index as int, tiered_values(table.max_bits as nat));
    lemma_with_table_keeps(mid, table.value.index as int, tiered_values(table.max_bits as nat), table.num_bits.index as int, tags);
}

/// Exact tuple membership in a loaded tiered table: some row holds the pair
/// (`t`, `x`) exactly when `x` lies below `2^num_bits` and `t` is its bit length.
pub proof fn lemma_tiered_table_membership(w: WitnessView, tags: Column, values: Column, num_bits: nat, t: int, x: int)
    requires
        view_wf(w),
        two_to(num_bits) <= w.n_rows,
        column_holds(w, tags.index as int, tiered_tags(num_bits)),
        column_holds(w, values.index as int, tiered_values(num_bits)),
    ensures
        (exists|trow: int|
            0 <= trow < w.n_rows && #[trigger] w.cells[grid_index(tags.index as int, trow, w.n_rows as int)] == t
                && w.cells[grid_index(values.index as int, trow, w.n_rows as int)] == x) <==> (0 <= x < two_to(num_bits)
            && t == bit_length(x as nat)),
{
    let tv = tiered_tags(num_bits);
    let vv = tiered_values(num_bits);
    if 0 <= x < two_to(num_bits) && t == bit_length(x as nat) {
        assert(w.cells[grid_index(tags.index as int, x, w.n_rows as int)] == table_value(tv, x));
        assert(w.cells[grid_index(values.index as int, x, w.n_rows as int)] == table_value(vv, x));
    }
    if exists|trow: int|
        0 <= trow < w.n_rows && #[trigger] w.cells[grid_index(tags.index as int, trow, w.n_rows as int)] == t
            && w.cells[grid_index(values.index as int, trow, w.n_rows as int)] == x {
        let trow = choose|trow: int|
            0 <= trow < w.n_rows && #[trigger] w.cells[grid_index(tags.index as int, trow, w.n_rows as int)] == t
                && w.cells[grid_index(values.index as int, trow, w.n_rows as int)] == x;
        assert(w.cells[grid_index(tags.index as int, trow, w.n_rows as int)] == table_value(tv, trow));
        assert(w.cells[grid_index(values.index as int, trow, w.n_rows as int)] == table_value(vv, trow));
        if trow < two_to(num_bits) {
            assert(tv[trow] == bit_length(trow as nat));
            assert(vv[trow] == trow);
        } else {
            lemma_two_to_grows(0, num_bits);
            assert(tv[0] == bit_length(0));
            assert(vv[0] == 0);
        }
    }
}

/// `e` is `q * num_bits + (1 - q)`: the claimed bit length where `q` is on,
/// and the tag one (that of the value zero) where it is off.
pub open spec fn is_tag_input(e: Expression, q: Selector, num_bits: Column) -> bool {
    match e {
        Expression::Sum(a, b) => *a == Expression::Product(
            Box::new(Expression::Selector(q)),
            Box::new(Expression::Query(num_bits, 0)),
        ) && match *b {
            Expression::Sum(c, d) => (match *c {
                Expression::Constant(k) => k@ == 1,
                _ => false,
            }) && *d == Expression::Negated(Box::new(Expression::Selector(q))),
            _ => false,
        },
        _ => false,
    }
}

/// `l` looks up (`q * value`, tag input) in the (value, tag) columns of `table`.
pub open spec fn is_tiered_lookup(l: Lookup, q: Selector, value: Column, num_bits: Column, table: RangeCheckTable) -> bool {
    &&& l.pairs@.len() == 2
    &&& l.pairs@[0].0 == Expression::Product(
        Box::new(Expression::Selector(q)),
        Box::new(Expression::Query(value, 0)),
    )
    &&& l.pairs@[0].1 == table.value
    &&& is_tag_input(l.pairs@[1].0, q, num_bits)
    &&& l.pairs@[1].1 == table.num_bits
}

/// The tiered lookup holds at `row` exactly when its selector is off there,
/// or the value lies below `2^max_bits` and the claimed bit length is its
/// bit length.
pub proof fn lemma_tiered_lookup_holds(
    w: WitnessView,
    l: Lookup,
    q: Selector,
    value: Column,
    num_bits: Column,
    table: RangeCheckTable,
    row: int,
)
    requires
        view_wf(w),
        is_tiered_lookup(l, q, value, num_bits, table),
        two_to(table.max_bits as nat) <= w.n_rows,
        0 <= row < w.n_rows,
        0 <= w.cells[grid_index(value.index as int, row, w.n_rows as int)] < modulus(),
        0 <= w.cells[grid_index(num_bits.index as int, row, w.n_rows as int)] < modulus(),
        column_holds(w, table.num_bits.index as int, tiered_tags(table.max_bits as nat)),
        column_holds(w, table.value.index as int, tiered_values(table.max_bits as nat)),
    ensures
        lookup_holds(l, w, row) <==> (w.enabled[grid_index(q.index as int, row, w.n_rows as int)] ==> (0
            <= w.cells[grid_index(value.index as int, row, w.n_rows as int)] < two_to(table.max_bits as nat)
            && w.cells[grid_index(num_bits.index as int, row, w.n_rows as int)] == bit_length(
            w.cells[grid_index(value.index as int, row, w.n_rows as int)] as nat,
        ))),
{
    let v = w.cells[grid_index(value.index as int, row, w.n_rows as int)];
    let t = w.cells[grid_index(num_bits.index as int, row, w.n_rows as int)];
    let on = w.enabled[grid_index(q.index as int, row, w.n_rows as int)];
    let x = if on { v } else { 0 };
    let y = if on { t } else { 1 };
    let sel = if on { 1int } else { 0int };
    assert(f_mul(1, v) == v);
    assert(f_mul(0, v) == 0);
    assert(f_mul(1, t) == t);
    assert(f_mul(0, t) == 0);
    assert(f_add(1, f_neg(1)) == 0);
    assert(f_add(1, f_neg(0)) == 1);
    assert(f_add(t, 0) == t);
    assert(f_add(0, 1) == 1);
    match l.pairs@[0].0 {
        Expression::Product(a, b) => {
            assert(eval(*b, w, row) == Some(v));
            assert(eval(*a, w, row) == Some(sel));
        },
        _ => {},
    }
    assert(eval(l.pairs@[0].0, w, row) == Some(x));
    match l.pairs@[1].0 {
        Expression::Sum(a, b) => {
            match *a {
                Expression::Product(a1, a2) => {
                    assert(eval(*a1, w, row) == Some(sel));
                    assert(eval(*a2, w, row) == Some(t));
                },
                _ => {},
            }
            assert(eval(*a, w, row) == Some(f_mul(sel, t)));
            match *b {
                Expression::Sum(c, d) => {
                    assert(eval(*c, w, row) == Some(1int));
                    match *d {
                        Expression::Negated(e) => assert(eval(*e, w, row) == Some(sel)),
                        _ => {},
                    }
                    assert(eval(*d, w, row) == Some(f_neg(sel)));
                    assert(eval(*b, w, row) == Some(f_add(1, f_neg(sel))));
                },
                _ => {},
            }
        },
        _ => {},
    }
    assert(eval(l.pairs@[1].0, w, row) == Some(f_add(f_mul(sel, t), f_add(1, f_neg(sel)))));
    assert(eval(l.pairs@[1].0, w, row) == Some(y));
    lemma_tiered_table_membership(w, table.num_bits, table.value, table.max_bits as nat, y, x);
    if lookup_holds(l, w, row) {
        let trow = choose|trow: int| 0 <= trow < w.n_rows && #[trigger] row_matches(l, w, row, trow);
        assert(eval(l.pairs@[0].0, w, row) == Some(w.cells[grid_index(table.value.index as int, trow, w.n_rows as int)]));
        assert(eval(l.pairs@[1].0, w, row) == Some(w.cells[grid_index(table.num_bits.index as int, trow, w.n_rows as int)]));
    }
    if 0 <= x < two_to(table.max_bits as nat) && y == bit_length(x as nat) {
        let trow = choose|trow: int|
            0 <= trow < w.n_rows && #[trigger] w.cells[grid_index(table.num_bits.index as int, trow, w.n_rows as int)] == y
                && w.cells[grid_index(table.value.index as int, trow, w.n_rows as int)] == x;
        assert(row_matches(l, w, row, trow));
    }
    if !on {
        assert(bit_length(0) == 1);
        lemma_two_to_grows(0, table.max_bits as nat);
    }
}

/// The range check with a claimed bit length beside each value, looked up
/// in a tiered table.
#[derive(Clone, Copy, Debug)]
pub struct RangeCheckConfig {
    pub value: Column,
    pub num_bits: Column,
    pub q_range_check: Selector,
    pub q_lookup: Selector,
    pub table: RangeCheckTable,
    pub range: usize,
}

/// The two cells that an assignment writes: the claimed bit length and the value.
pub open spec fn tagged_cells(num_bits: Column, bits: int, value: Column, v: int) -> Seq<(Column, int)> {
    seq![(num_bits, bits), (value, v)]
}

impl RangeCheckConfig {
    /// Allocates the tiered table for `lookup_num_bits` bits (refused unless
    /// `lookup_range == 2^lookup_num_bits`), a simple selector for the polynomial gate
    /// of `[0, range)` and a complex one for the lookup of (value, claimed
    /// bit length) into the table.
    pub fn configure(
        cs: &mut ConstraintSystem,
        value: Column,
        num_bits: Column,
        range: usize,
        lookup_num_bits: usize,
        lookup_range: usize,
    ) -> (r: Result<RangeCheckConfig, ConfigError>)
        requires
            old(cs).wf(),
            old(cs).selectors@.len() + 2 <= usize::MAX,
            old(cs).kinds@.len() + 2 <= usize::MAX,
        ensures
            final(cs).wf(),
            (value.index >= old(cs).kinds@.len() || num_bits.index >= old(cs).kinds@.len()) ==> (r
                == Err::<RangeCheckConfig, ConfigError>(ConfigError::UnknownColumnOrSelector) && *final(cs) == *old(cs)),
            (value.index < old(cs).kinds@.len() && num_bits.index < old(cs).kinds@.len() && two_to(
                lookup_num_bits as nat,
            ) != lookup_range) ==> (r == Err::<RangeCheckConfig, ConfigError>(ConfigError::TableShapeMismatch)
                && *final(cs) == *old(cs)),
            (value.index < old(cs).kinds@.len() && num_bits.index < old(cs).kinds@.len() && two_to(
                lookup_num_bits as nat,
            ) == lookup_range) ==> (r matches Ok(cfg) && cfg.value == value && cfg.num_bits == num_bits
                && cfg.range == range && cfg.table.wf() && cfg.table.max_bits == lookup_num_bits
                && cfg.table.range == lookup_range
                && cfg.table.value == (Column { index: old(cs).kinds@.len() as usize, kind: ColumnKind::Fixed })
                && cfg.table.num_bits == (Column { index: (old(cs).kinds@.len() + 1) as usize, kind: ColumnKind::Fixed })
                && final(cs).kinds@ == old(cs).kinds@.push(ColumnKind::Fixed).push(ColumnKind::Fixed)
                && final(cs).selectors@ == old(cs).selectors@.push(true).push(false)
                && cfg.q_range_check == (Selector { index: old(cs).selectors@.len() as usize, simple: true })
                && cfg.q_lookup == (Selector { index: (old(cs).selectors@.len() + 1) as usize, simple: false })
                && final(cs).gates@.drop_last() == old(cs).gates@
                && final(cs).gates@.len() == old(cs).gates@.len() + 1
                && is_range_gate(final(cs).gates@.last(), cfg.q_range_check, value, range as nat)
                && final(cs).lookups@.drop_last() == old(cs).lookups@
                && final(cs).lookups@.len() == old(cs).lookups@.len() + 1
                && is_tiered_lookup(final(cs).lookups@.last(), cfg.q_lookup, value, num_bits, cfg.table)),
    {
        if value.index >= cs.kinds.len() || num_bits.index >= cs.kinds.len() {
            return Err(ConfigError::UnknownColumnOrSelector);
        }
        let table = RangeCheckTable::configure(cs, lookup_num_bits, lookup_range)?;
        let q_range_check = cs.selector();
        let q_lookup = cs.complex_selector();
        let e = range_check_expr(range, &Expression::Query(value, 0));
        let poly = Expression::Product(Box::new(Expression::Selector(q_range_check)), Box::new(e));
        proof {
            lemma_range_expr_in_bounds(e, range as nat, Expression::Query(value, 0), cs.kinds@.len(), cs.selectors@.len());
            assert(expr_in_bounds(Expression::Selector(q_range_check), cs.kinds@.len(), cs.selectors@.len()));
            assert(expr_in_bounds(poly, cs.kinds@.len(), cs.selectors@.len()));
        }
        let mut polys: Vec<Expression> = Vec::new();
        polys.push(poly);
        let ghost old_gates = cs.gates@;
        let res = cs.create_gate(String::from_str("range check"), q_range_check, polys);
        assert(res is Ok);
        let value_input = Expression::Product(
            Box::new(Expression::Selector(q_lookup)),
            Box::new(Expression::Query(value, 0)),
        );
        let claimed = Expression::Product(Box::new(Expression::Selector(q_lookup)), Box::new(Expression::Query(num_bits, 0)));
        let not_q = Expression::Negated(Box::new(Expression::Selector(q_lookup)));
        let one = Expression::Constant(Fe::one());
        assert(expr_in_bounds(one, cs.kinds@.len(), cs.selectors@.len()) && !uses_simple_selector(one));
        let default_tag = Expression::Sum(Box::new(one), Box::new(not_q));
        let tag_input = Expression::Sum(Box::new(claimed), Box::new(default_tag));
        let mut pairs: Vec<(Expression, Column)> = Vec::new();
        pairs.push((value_input, table.value));
        pairs.push((tag_input, table.num_bits));
        let ghost old_lookups = cs.lookups@;
        proof {
            let n_c = cs.kinds@.len();
            let n_s = cs.selectors@.len();
            assert(expr_in_bounds(Expression::Selector(q_lookup), n_c, n_s));
            assert(expr_in_bounds(Expression::Query(value, 0), n_c, n_s));
            assert(expr_in_bounds(Expression::Query(num_bits, 0), n_c, n_s));
            assert(expr_in_bounds(value_input, n_c, n_s));
            assert(expr_in_bounds(claimed, n_c, n_s));
            assert(expr_in_bounds(not_q, n_c, n_s));
            assert(expr_in_bounds(default_tag, n_c, n_s));
            assert(expr_in_bounds(tag_input, n_c, n_s));
            assert(!uses_simple_selector(Expression::Selector(q_lookup)));
            assert(!uses_simple_selector(Expression::Query(value, 0)));
            assert(!uses_simple_selector(Expression::Query(num_bits, 0)));
            assert(!uses_simple_selector(value_input));
            assert(!uses_simple_selector(claimed));
            assert(!uses_simple_selector(not_q));
            assert(!uses_simple_selector(default_tag));
            assert(!uses_simple_selector(tag_input));
            assert(pairs@[0].0 == value_input);
            assert(pairs@[1].0 == tag_input);
            assert(table_side_ok(pairs@[0].1, cs.kinds@));
            assert(table_side_ok(pairs@[1].1, cs.kinds@));
            assert(lookup_error(pairs@, cs.kinds@, cs.selectors@.len()) is None);
        }
        let res2 = cs.lookup(String::from_str("range check lookup"), pairs);
        assert(res2 is Ok);
        proof {
            assert(cs.gates@.drop_last() =~= old_gates);
            assert(cs.lookups@.drop_last() =~= old_lookups);
        }
        Ok(RangeCheckConfig { value, num_bits, q_range_check, q_lookup, table, range })
    }

    /// The selector that a claimed range turns on: the polynomial gate below `range`,
    /// the lookup from there on.
    pub open spec fn selector_for(&self, claimed: nat) -> Selector {
        if claimed < self.range {
            self.q_range_check
        } else {
            self.q_lookup
        }
    }

    /// Places the claimed bit length and `value` in a new one-row region
    /// under the check that the claimed range calls for. The claimed range
    /// never exceeds the table.
    pub fn assign(&self, w: &mut Witness, value: Fe, num_bits: usize, range: usize) -> (r: Result<(), AssignError>)
        requires
            old(w).wf(),
            range <= self.table.range,
        ensures
            final(w).wf(),
            row_fits(old(w)@, self.selector_for(range as nat), tagged_cells(self.num_bits, num_bits as int, self.value, value@))
                ==> (r is Ok && final(w)@ == row_assigned(
                old(w)@,
                self.selector_for(range as nat),
                tagged_cells(self.num_bits, num_bits as int, self.value, value@),
            )),
            row_error(old(w)@, self.selector_for(range as nat), tagged_cells(self.num_bits, num_bits as int, self.value, value@))
                matches Some(e) ==> (r == Err::<(), AssignError>(e) && final(w)@ == old(w)@),
    {
        let bits = Fe::from_u64(num_bits as u64);
        let mut cells: Vec<(Column, Fe)> = Vec::new();
        cells.push((self.num_bits, bits));
        cells.push((self.value, value));
        assert(cell_values(cells@) =~= tagged_cells(self.num_bits, num_bits as int, self.value, value@));
        let sel = if range < self.range {
            self.q_range_check
        } else {
            self.q_lookup
        };
        w.assign_row(sel, &cells)?;
        Ok(())
    }
}

/// Two tiered assignments of equal values and claimed bit lengths under the
/// same selector to the same witness meet the same error or leave equal
/// witnesses.
pub proof fn lemma_tagged_assign_deterministic(v: WitnessView, sel: Selector, cfg: RangeCheckConfig, bits: int, x1: Fe, x2: Fe)
    requires
        x1@ == x2@,
    ensures
        row_error(v, sel, tagged_cells(cfg.num_bits, bits, cfg.value, x1@)) == row_error(
            v,
            sel,
            tagged_cells(cfg.num_bits, bits, cfg.value, x2@),
        ),
        row_assigned(v, sel, tagged_cells(cfg.num_bits, bits, cfg.value, x1@)) == row_assigned(
            v,
            sel,
            tagged_cells(cfg.num_bits, bits, cfg.value, x2@),
        ),
{
}

} // verus!
