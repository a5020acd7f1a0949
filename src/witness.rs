//! The witness: cell values, selector flags, and the region-based assigner that fills them.
use vstd::prelude::*;
use crate::field::Fe;
use crate::expression::{Column, ColumnKind, Expression, Selector, eval, expr_in_bounds, grid_index};

verus! {

/// Why an assignment was refused.
#[derive(Clone, Copy, Debug, PartialEq, Eq, Structural)]
pub enum AssignError {
    NoOpenRegion,
    RegionAlreadyOpen,
    ColumnOutOfRange,
    WrongColumnKind,
    SelectorOutOfRange,
    RowOutOfRange,
    AlreadyAssigned,
    EmptyTable,
    TableTooLarge,
}

/// A cell written by an assignment, which later logic may read.
#[derive(Clone, Copy, Debug)]
pub struct AssignedCell {
    pub column: Column,
    pub row: usize,
    pub value: Fe,
}

/// The mathematical content of a witness. Cells and selector flags are laid
/// out column-major, `n_rows` per column; `region` is the open region's start
/// row and height.
pub struct WitnessView {
    pub n_rows: nat,
    pub kinds: Seq<ColumnKind>,
    pub n_selectors: nat,
    pub cells: Seq<int>,
    pub filled: Seq<bool>,
    pub enabled: Seq<bool>,
    pub region: Option<(nat, nat)>,
    pub next_row: nat,
}

/// The largest number of rows a witness may have.
pub const MAX_ROWS: usize = 0x4000_0000;

pub open spec fn view_wf(v: WitnessView) -> bool {
    &&& 0 < v.n_rows <= MAX_ROWS
    &&& v.cells.len() == v.kinds.len() * v.n_rows
    &&& v.cells.len() <= usize::MAX
    &&& v.enabled.len() <= usize::MAX
    &&& v.filled.len() == v.cells.len()
    &&& v.enabled.len() == v.n_selectors * v.n_rows
    &&& v.next_row <= v.n_rows
    &&& (v.region matches Some((s, h)) ==> s + h <= v.n_rows)
}

/// The error, if any, that assigning `column` at `offset` of the open region meets.
pub open spec fn assign_error(v: WitnessView, column: Column, offset: int) -> Option<AssignError> {
    match v.region {
        None => Some(AssignError::NoOpenRegion),
        Some((s, _)) => if column.index >= v.kinds.len() {
            Some(AssignError::ColumnOutOfRange)
        } else if column.kind != ColumnKind::Advice || v.kinds[column.index as int] != column.kind {
            Some(AssignError::WrongColumnKind)
        } else if s + offset >= v.n_rows {
            Some(AssignError::RowOutOfRange)
        } else if v.filled[grid_index(column.index as int, s + offset, v.n_rows as int)] {
            Some(AssignError::AlreadyAssigned)
        } else {
            None
        },
    }
}

/// The open region grown to cover `offset`.
pub open spec fn grown(region: Option<(nat, nat)>, offset: int) -> Option<(nat, nat)> {
    match region {
        Some((s, h)) => Some((s, if h > offset + 1 { h } else { (offset + 1) as nat })),
        None => None,
    }
}

/// `v` after writing `x` at `offset` of the open region in column `col`.
pub open spec fn with_cell(v: WitnessView, col: int, offset: int, x: int) -> WitnessView {
    let i = grid_index(col, v.region->Some_0.0 + offset, v.n_rows as int);
    WitnessView {
        cells: v.cells.update(i, x),
        filled: v.filled.update(i, true),
        region: grown(v.region, offset),
        ..v
    }
}

/// The error, if any, that enabling `sel` at `offset` of the open region meets.
pub open spec fn enable_error(v: WitnessView, sel: Selector, offset: int) -> Option<AssignError> {
    match v.region {
        None => Some(AssignError::NoOpenRegion),
        Some((s, _)) => if sel.index >= v.n_selectors {
            Some(AssignError::SelectorOutOfRange)
        } else if s + offset >= v.n_rows {
            Some(AssignError::RowOutOfRange)
        } else {
            None
        },
    }
}

/// `v` after enabling selector `sel` at `offset` of the open region.
pub open spec fn with_enabled(v: WitnessView, sel: int, offset: int) -> WitnessView {
    let i = grid_index(sel, v.region->Some_0.0 + offset, v.n_rows as int);
    WitnessView { enabled: v.enabled.update(i, true), region: grown(v.region, offset), ..v }
}

/// The value a loaded table holds at `row`: the given values, then the first
/// one repeated over the remaining rows.
pub open spec fn table_value(vals: Seq<int>, row: int) -> int {
    if row < vals.len() {
        vals[row]
    } else {
        vals[0]
    }
}

/// The error, if any, that loading `len` values into `column` meets.
pub open spec fn table_error(v: WitnessView, column: Column, len: int) -> Option<AssignError> {
    if column.index >= v.kinds.len() {
        Some(AssignError::ColumnOutOfRange)
    } else if column.kind != ColumnKind::Fixed || v.kinds[column.index as int] != column.kind {
        Some(AssignError::WrongColumnKind)
    } else if len == 0 {
        Some(AssignError::EmptyTable)
    } else if len > v.n_rows {
        Some(AssignError::TableTooLarge)
    } else {
        None
    }
}

/// `v` with every row of column `col` loaded from `vals`.
pub open spec fn with_table(v: WitnessView, col: int, vals: Seq<int>) -> WitnessView {
    let lo = col * v.n_rows;
    let hi = lo + v.n_rows;
    WitnessView {
        cells: Seq::new(
            v.cells.len(),
            |i: int|
                if lo <= i < hi {
                    table_value(vals, i - lo)
                } else {
                    v.cells[i]
                },
        ),
        filled: Seq::new(v.filled.len(), |i: int| if lo <= i < hi { true } else { v.filled[i] }),
        ..v
    }
}

/// `v` with a region opened at the next free row.
pub open spec fn opened(v: WitnessView) -> WitnessView {
    WitnessView { region: Some((v.next_row, 0nat)), ..v }
}

/// `v` with its open region closed after its last used row.
pub open spec fn closed(v: WitnessView) -> WitnessView {
    match v.region {
        Some((s, h)) => WitnessView { region: None, next_row: s + h, ..v },
        None => v,
    }
}

/// The advice cell of `col` at `row` exists and is still unassigned.
pub open spec fn cell_free(v: WitnessView, col: Column, row: int) -> bool {
    &&& col.index < v.kinds.len()
    &&& col.kind == ColumnKind::Advice
    &&& v.kinds[col.index as int] == ColumnKind::Advice
    &&& 0 <= row < v.n_rows
    &&& !v.filled[grid_index(col.index as int, row, v.n_rows as int)]
}

/// `v` after writing the first `k` of `cells` at offset 0 of the open region.
pub open spec fn fill_row(v: WitnessView, cells: Seq<(Column, int)>, k: nat) -> WitnessView
    decreases k,
{
    if k == 0 {
        v
    } else {
        with_cell(fill_row(v, cells, (k - 1) as nat), cells[k - 1].0.index as int, 0, cells[k - 1].1)
    }
}

/// The columns and values of `cells`.
pub open spec fn cell_values(cells: Seq<(Column, Fe)>) -> Seq<(Column, int)> {
    cells.map_values(|p: (Column, Fe)| (p.0, p.1@))
}

/// A one-row region can be placed at the next free row, enabling `sel` and
/// writing `cells`, which name distinct free advice cells.
pub open spec fn row_fits(v: WitnessView, sel: Selector, cells: Seq<(Column, int)>) -> bool {
    &&& v.region is None
    &&& sel.index < v.n_selectors
    &&& v.next_row < v.n_rows
    &&& forall|i: int| 0 <= i < cells.len() ==> cell_free(v, #[trigger] cells[i].0, v.next_row as int)
    &&& forall|i: int, j: int| 0 <= i < j < cells.len() ==> #[trigger] cells[i].0.index != #[trigger] cells[j].0.index
}

/// The error, if any, that writing the advice cell of `col` at `row` meets.
pub open spec fn cell_error(v: WitnessView, col: Column, row: int) -> Option<AssignError> {
    if col.index >= v.kinds.len() {
        Some(AssignError::ColumnOutOfRange)
    } else if col.kind != ColumnKind::Advice || v.kinds[col.index as int] != col.kind {
        Some(AssignError::WrongColumnKind)
    } else if v.filled[grid_index(col.index as int, row, v.n_rows as int)] {
        Some(AssignError::AlreadyAssigned)
    } else {
        None
    }
}

/// The first error among the first `k` of `cells` at `row`, in order: the
/// cell's own error, or `AlreadyAssigned` when an earlier cell has its column.
pub open spec fn cells_error(v: WitnessView, row: int, cells: Seq<(Column, int)>, k: nat) -> Option<AssignError>
    decreases k,
{
    if k == 0 {
        None
    } else {
        match cells_error(v, row, cells, (k - 1) as nat) {
            Some(e) => Some(e),
            None => match cell_error(v, cells[k - 1].0, row) {
                Some(e) => Some(e),
                None => if exists|j: int| 0 <= j < k - 1 && #[trigger] cells[j].0.index == cells[k - 1].0.index {
                    Some(AssignError::AlreadyAssigned)
                } else {
                    None
                },
            },
        }
    }
}

/// The error that a one-row region enabling `sel` and writing `cells` meets:
/// an open region, an unknown selector, no free row, then the first bad cell.
pub open spec fn row_error(v: WitnessView, sel: Selector, cells: Seq<(Column, int)>) -> Option<AssignError> {
    if v.region is Some {
        Some(AssignError::RegionAlreadyOpen)
    } else if sel.index >= v.n_selectors {
        Some(AssignError::SelectorOutOfRange)
    } else if v.next_row >= v.n_rows {
        Some(AssignError::RowOutOfRange)
    } else {
        cells_error(v, v.next_row as int, cells, cells.len())
    }
}

/// Once a prefix of the cells meets an error, every longer prefix meets the same one.
pub proof fn lemma_cells_error_stable(v: WitnessView, row: int, cells: Seq<(Column, int)>, k: nat, m: nat)
    requires
        k <= m,
        cells_error(v, row, cells, k) is Some,
    ensures
        cells_error(v, row, cells, m) == cells_error(v, row, cells, k),
    decreases m - k,
{
    if k < m {
        lemma_cells_error_stable(v, row, cells, k, (m - 1) as nat);
    }
}

/// No error among the first `k` cells exactly when they are free and in distinct columns.
pub proof fn lemma_cells_error_none(v: WitnessView, row: int, cells: Seq<(Column, int)>, k: nat)
    requires
        0 <= row < v.n_rows,
        k <= cells.len(),
    ensures
        cells_error(v, row, cells, k) is None <==> ((forall|i: int| 0 <= i < k ==> cell_free(v, #[trigger] cells[i].0, row))
            && (forall|i: int, j: int| 0 <= i < j < k ==> #[trigger] cells[i].0.index != #[trigger] cells[j].0.index)),
    decreases k,
{
    if k > 0 {
        lemma_cells_error_none(v, row, cells, (k - 1) as nat);
        let last = (k - 1) as int;
        if cells_error(v, row, cells, k) is None {
            assert forall|i: int, j: int| 0 <= i < j < k implies #[trigger] cells[i].0.index != #[trigger] cells[j].0.index by {
                if j == last && cells[i].0.index == cells[j].0.index {
                    assert(cells[i].0.index == cells[last].0.index);
                }
            }
        }
        if (forall|i: int| 0 <= i < k ==> cell_free(v, #[trigger] cells[i].0, row))
            && (forall|i: int, j: int| 0 <= i < j < k ==> #[trigger] cells[i].0.index != #[trigger] cells[j].0.index) {
            assert(cell_free(v, cells[last].0, row));
            assert(!exists|j: int| 0 <= j < k - 1 && #[trigger] cells[j].0.index == cells[k - 1].0.index) by {
                assert forall|j: int| 0 <= j < k - 1 implies #[trigger] cells[j].0.index != cells[k - 1].0.index by {
                    assert(cells[j].0.index != cells[last].0.index);
                }
            }
        }
    }
}

/// A one-row region fits exactly when it meets no error.
pub proof fn lemma_row_error_none(v: WitnessView, sel: Selector, cells: Seq<(Column, int)>)
    ensures
        row_error(v, sel, cells) is None <==> row_fits(v, sel, cells),
{
    if v.region is None && sel.index < v.n_selectors && v.next_row < v.n_rows {
        lemma_cells_error_none(v, v.next_row as int, cells, cells.len());
    }
}

/// `v` after a one-row region that enables `sel` and writes `cells`.
pub open spec fn row_assigned(v: WitnessView, sel: Selector, cells: Seq<(Column, int)>) -> WitnessView {
    closed(fill_row(with_enabled(opened(v), sel.index as int, 0), cells, cells.len()))
}

/// Cells of distinct columns in one row never share a flat index.
pub proof fn lemma_grid_index_distinct(c1: int, c2: int, row: int, n_rows: int)
    requires
        c1 != c2,
        0 < n_rows,
    ensures
        grid_index(c1, row, n_rows) != grid_index(c2, row, n_rows),
{
    if c1 < c2 {
        assert(c1 * n_rows < c2 * n_rows) by (nonlinear_arith)
            requires
                c1 < c2,
                0 < n_rows,
        ;
    } else {
        assert(c2 * n_rows < c1 * n_rows) by (nonlinear_arith)
            requires
                c2 < c1,
                0 < n_rows,
        ;
    }
}

/// Every row of column `col` holds what a table loaded from `vals` holds there.
pub open spec fn column_holds(w: WitnessView, col: int, vals: Seq<int>) -> bool {
    forall|trow: int| 0 <= trow < w.n_rows ==> #[trigger] w.cells[grid_index(col, trow, w.n_rows as int)] == table_value(vals, trow)
}

/// Loading a table into `col` makes `col` hold it.
pub proof fn lemma_with_table_holds(v: WitnessView, col: int, vals: Seq<int>)
    requires
        view_wf(v),
        0 <= col < v.kinds.len(),
    ensures
        column_holds(with_table(v, col, vals), col, vals),
{
    let w = with_table(v, col, vals);
    assert forall|trow: int| 0 <= trow < w.n_rows implies #[trigger] w.cells[grid_index(col, trow, w.n_rows as int)] == table_value(vals, trow) by {
        lemma_grid_index(col, trow, v.kinds.len() as int, v.n_rows as int);
    }
}

/// Loading a table into `col` leaves what another column holds.
pub proof fn lemma_with_table_keeps(v: WitnessView, col: int, vals: Seq<int>, other: int, other_vals: Seq<int>)
    requires
        view_wf(v),
        0 <= col < v.kinds.len(),
        0 <= other < v.kinds.len(),
        other != col,
        column_holds(v, other, other_vals),
    ensures
        column_holds(with_table(v, col, vals), other, other_vals),
{
    let w = with_table(v, col, vals);
    assert forall|trow: int| 0 <= trow < w.n_rows implies #[trigger] w.cells[grid_index(other, trow, w.n_rows as int)] == table_value(other_vals, trow) by {
        lemma_grid_index(other, trow, v.kinds.len() as int, v.n_rows as int);
        lemma_grid_index_column(col, other, trow, v.n_rows as int);
        assert(v.cells[grid_index(other, trow, v.n_rows as int)] == table_value(other_vals, trow));
    }
}

/// Loading the same table into a column a second time changes nothing, and
/// meets no error that the first load did not.
pub proof fn lemma_table_load_idempotent(v: WitnessView, col: Column, vals: Seq<int>)
    ensures
        with_table(with_table(v, col.index as int, vals), col.index as int, vals) == with_table(v, col.index as int, vals),
        table_error(with_table(v, col.index as int, vals), col, vals.len() as int) == table_error(v, col, vals.len() as int),
{
    let once = with_table(v, col.index as int, vals);
    let twice = with_table(once, col.index as int, vals);
    assert(twice.cells =~= once.cells);
    assert(twice.filled =~= once.filled);
}

/// Loading two tables into distinct columns, and then loading both again,
/// gives what loading them once gives.
pub proof fn lemma_two_table_load_idempotent(v: WitnessView, c1: int, vals1: Seq<int>, c2: int, vals2: Seq<int>)
    requires
        0 <= c1,
        0 <= c2,
        c1 != c2,
    ensures
        with_table(with_table(with_table(with_table(v, c1, vals1), c2, vals2), c1, vals1), c2, vals2) == with_table(
            with_table(v, c1, vals1),
            c2,
            vals2,
        ),
{
    let once = with_table(with_table(v, c1, vals1), c2, vals2);
    let twice = with_table(with_table(once, c1, vals1), c2, vals2);
    assert(twice.cells =~= once.cells);
    assert(twice.filled =~= once.filled);
}

/// Bounds on the flat index of a grid cell.
pub proof fn lemma_grid_index(col: int, row: int, n_cols: int, n_rows: int)
    requires
        0 <= col < n_cols,
        0 <= row < n_rows,
    ensures
        0 <= col * n_rows <= grid_index(col, row, n_rows) < col * n_rows + n_rows <= n_cols * n_rows,
{
    assert(0 <= col * n_rows) by (nonlinear_arith)
        requires
            0 <= col,
            0 <= row < n_rows,
    ;
    assert(col * n_rows + n_rows <= n_cols * n_rows) by (nonlinear_arith)
        requires
            0 <= col < n_cols,
            0 <= row < n_rows,
    ;
}

/// Cells of distinct columns never share a flat index.
pub proof fn lemma_grid_index_column(col: int, other: int, row: int, n_rows: int)
    requires
        0 <= other,
        other != col,
        0 <= row < n_rows,
    ensures
        !(col * n_rows <= grid_index(other, row, n_rows) < col * n_rows + n_rows),
{
    if other < col {
        assert(other * n_rows + n_rows <= col * n_rows) by (nonlinear_arith)
            requires
                other < col,
                0 <= row < n_rows,
        ;
    } else {
        assert(col * n_rows + n_rows <= other * n_rows) by (nonlinear_arith)
            requires
                col < other,
                0 <= row < n_rows,
        ;
    }
}

/// Cell values, selector flags and the region cursor of one circuit instance.
pub struct Witness {
    n_rows: usize,
    kinds: Vec<ColumnKind>,
    n_selectors: usize,
    cells: Vec<Fe>,
    filled: Vec<bool>,
    enabled: Vec<bool>,
    region: Option<(usize, usize)>,
    next_row: usize,
}

impl View for Witness {
    type V = WitnessView;

    closed spec fn view(&self) -> WitnessView {
        WitnessView {
            n_rows: self.n_rows as nat,
            kinds: self.kinds@,
            n_selectors: self.n_selectors as nat,
            cells: self.cells@.map_values(|f: Fe| f@),
            filled: self.filled@,
            enabled: self.enabled@,
            region: match self.region {
                Some((s, h)) => Some((s as nat, h as nat)),
                None => None,
            },
            next_row: self.next_row as nat,
        }
    }
}

impl Witness {
    pub open spec fn wf(&self) -> bool {
        view_wf(self@)
    }

    /// An empty witness of `n_rows` rows for columns of the given kinds and
    /// `n_selectors` selectors: every cell zero and unassigned, every flag off.
    pub fn new(kinds: &Vec<ColumnKind>, n_selectors: usize, n_rows: usize) -> (r: Witness)
        requires
            0 < n_rows <= MAX_ROWS,
            kinds@.len() * n_rows <= usize::MAX,
            n_selectors * n_rows <= usize::MAX,
        ensures
            r.wf(),
            r@.n_rows == n_rows,
            r@.kinds == kinds@,
            r@.n_selectors == n_selectors,
            r@.cells == Seq::new((kinds@.len() * n_rows) as nat, |i: int| 0int),
            r@.filled == Seq::new((kinds@.len() * n_rows) as nat, |i: int| false),
            r@.enabled == Seq::new((n_selectors * n_rows) as nat, |i: int| false),
            r@.region is None,
            r@.next_row == 0,
    {
        let n_cells = kinds.len() * n_rows;
        let n_flags = n_selectors * n_rows;
        let zero = Fe::zero();
        let mut cells: Vec<Fe> = Vec::new();
        let mut filled: Vec<bool> = Vec::new();
        let mut i: usize = 0;
        while i < n_cells
            invariant
                i <= n_cells,
                cells@.len() == i,
                filled@.len() == i,
                zero@ == 0,
                forall|j: int| 0 <= j < i ==> (#[trigger] cells@[j])@ == 0,
                forall|j: int| 0 <= j < i ==> !(#[trigger] filled@[j]),
            decreases n_cells - i,
        {
            cells.push(zero);
            filled.push(false);
            i = i + 1;
        }
        let mut enabled: Vec<bool> = Vec::new();
        let mut j: usize = 0;
        while j < n_flags
            invariant
                j <= n_flags,
                enabled@.len() == j,
                forall|k: int| 0 <= k < j ==> !(#[trigger] enabled@[k]),
            decreases n_flags - j,
        {
            enabled.push(false);
            j = j + 1;
        }
        let r = Witness {
            n_rows,
            kinds: kinds.clone(),
            n_selectors,
            cells,
            filled,
            enabled,
            region: None,
            next_row: 0,
        };
        assert(r@.cells =~= Seq::new((kinds@.len() * n_rows) as nat, |i: int| 0int));
        assert(r@.filled =~= Seq::new((kinds@.len() * n_rows) as nat, |i: int| false));
        assert(r@.enabled =~= Seq::new((n_selectors * n_rows) as nat, |i: int| false));
        r
    }

    pub fn n_rows(&self) -> (r: usize)
        ensures
            r == self@.n_rows,
    {
        self.n_rows
    }

    pub fn n_selectors(&self) -> (r: usize)
        ensures
            r == self@.n_selectors,
    {
        self.n_selectors
    }

    /// The row at which the next region starts.
    pub fn next_row(&self) -> (r: usize)
        ensures
            r == self@.next_row,
    {
        self.next_row
    }

    /// Whether selector `sel` is on at `row`.
    pub fn is_enabled(&self, sel: Selector, row: usize) -> (r: bool)
        requires
            self.wf(),
            sel.index < self@.n_selectors,
            row < self@.n_rows,
        ensures
            r == self@.enabled[grid_index(sel.index as int, row as int, self@.n_rows as int)],
    {
        proof {
            lemma_grid_index(sel.index as int, row as int, self.n_selectors as int, self.n_rows as int);
        }
        self.enabled[sel.index * self.n_rows + row]
    }

    pub fn region_open(&self) -> (r: bool)
        ensures
            r == self@.region is Some,
    {
        self.region.is_some()
    }

    /// The error, if any, that writing the advice cell of `col` at `row` meets.
    pub fn cell_check(&self, col: Column, row: usize) -> (r: Option<AssignError>)
        requires
            self.wf(),
            row < self@.n_rows,
        ensures
            r == cell_error(self@, col, row as int),
    {
        if col.index >= self.kinds.len() {
            return Some(AssignError::ColumnOutOfRange);
        }
        let advice = match col.kind {
            ColumnKind::Advice => true,
            _ => false,
        };
        if !advice || self.kinds[col.index] != col.kind {
            return Some(AssignError::WrongColumnKind);
        }
        proof {
            lemma_grid_index(col.index as int, row as int, self.kinds@.len() as int, self.n_rows as int);
        }
        if self.filled[col.index * self.n_rows + row] {
            Some(AssignError::AlreadyAssigned)
        } else {
            None
        }
    }

    /// Whether the advice cell of `col` at `row` exists and is unassigned.
    pub fn is_cell_free(&self, col: Column, row: usize) -> (r: bool)
        requires
            self.wf(),
        ensures
            r == cell_free(self@, col, row as int),
    {
        if col.index >= self.kinds.len() || row >= self.n_rows {
            return false;
        }
        let advice = match col.kind {
            ColumnKind::Advice => true,
            _ => false,
        } && match self.kinds[col.index] {
            ColumnKind::Advice => true,
            _ => false,
        };
        if !advice {
            return false;
        }
        proof {
            lemma_grid_index(col.index as int, row as int, self.kinds@.len() as int, self.n_rows as int);
        }
        !self.filled[col.index * self.n_rows + row]
    }

    /// The value of the cell at (`column`, `row`).
    pub fn value(&self, column: Column, row: usize) -> (r: Fe)
        requires
            self.wf(),
            column.index < self@.kinds.len(),
            row < self@.n_rows,
        ensures
            r@ == self@.cells[grid_index(column.index as int, row as int, self@.n_rows as int)],
    {
        proof {
            lemma_grid_index(column.index as int, row as int, self@.kinds.len() as int, self.n_rows as int);
        }
        self.cells[column.index * self.n_rows + row]
    }

    /// Opens a region at the next free row.
    pub fn begin_region(&mut self) -> (r: Result<(), AssignError>)
        requires
            old(self).wf(),
        ensures
            final(self).wf(),
            old(self)@.region is Some ==> r == Err::<(), AssignError>(AssignError::RegionAlreadyOpen)
                && final(self)@ == old(self)@,
            old(self)@.region is None ==> r is Ok && final(self)@ == (WitnessView {
                region: Some((old(self)@.next_row, 0nat)),
                ..old(self)@
            }),
    {
        if self.region.is_some() {
            return Err(AssignError::RegionAlreadyOpen);
        }
        self.region = Some((self.next_row, 0));
        Ok(())
    }

    /// Closes the open region; the next region starts after its last used row.
    pub fn end_region(&mut self) -> (r: Result<(), AssignError>)
        requires
            old(self).wf(),
        ensures
            final(self).wf(),
            old(self)@.region is None ==> r == Err::<(), AssignError>(AssignError::NoOpenRegion)
                && final(self)@ == old(self)@,
            old(self)@.region matches Some((s, h)) ==> (r is Ok && final(self)@ == (WitnessView {
                region: None,
                next_row: s + h,
                ..old(self)@
            })),
    {
        match self.region {
            None => Err(AssignError::NoOpenRegion),
            Some((s, h)) => {
                self.region = None;
                self.next_row = s + h;
                Ok(())
            },
        }
    }

    /// Sets selector `sel` at `offset` of the open region.
    pub fn enable_selector(&mut self, sel: Selector, offset: usize) -> (r: Result<(), AssignError>)
        requires
            old(self).wf(),
        ensures
            final(self).wf(),
            enable_error(old(self)@, sel, offset as int) matches Some(e) ==> (r == Err::<(), AssignError>(e)
                && final(self)@ == old(self)@),
            enable_error(old(self)@, sel, offset as int) is None ==> r is Ok && final(self)@
                == with_enabled(old(self)@, sel.index as int, offset as int),
    {
        let (s, h) = match self.region {
            None => { return Err(AssignError::NoOpenRegion); },
            Some(p) => p,
        };
        if sel.index >= self.n_selectors {
            return Err(AssignError::SelectorOutOfRange);
        }
        if offset >= self.n_rows - s {
            return Err(AssignError::RowOutOfRange);
        }
        let row = s + offset;
        proof {
            lemma_grid_index(sel.index as int, row as int, self.n_selectors as int, self.n_rows as int);
        }
        let i = sel.index * self.n_rows + row;
        self.enabled.set(i, true);
        let nh = if h > offset + 1 { h } else { offset + 1 };
        self.region = Some((s, nh));
        proof {
            assert(self@.cells =~= old(self)@.cells);
        }
        Ok(())
    }

    /// Writes `value` into advice `column` at `offset` of the open region;
    /// a cell is written at most once.
    pub fn assign_advice(&mut self, column: Column, offset: usize, value: Fe) -> (r: Result<
        AssignedCell,
        AssignError,
    >)
        requires
            old(self).wf(),
        ensures
            final(self).wf(),
            assign_error(old(self)@, column, offset as int) matches Some(e) ==> (r matches Err(x)
                && x == e && final(self)@ == old(self)@),
            assign_error(old(self)@, column, offset as int) is None ==> (r matches Ok(cell) && cell.column
                == column && cell.row == old(self)@.region->Some_0.0 + offset && cell.value@ == value@
                && final(self)@ == with_cell(old(self)@, column.index as int, offset as int, value@)),
    {
        let (s, h) = match self.region {
            None => { return Err(AssignError::NoOpenRegion); },
            Some(p) => p,
        };
        if column.index >= self.kinds.len() {
            return Err(AssignError::ColumnOutOfRange);
        }
        let is_advice = match column.kind {
            ColumnKind::Advice => true,
            _ => false,
        };
        if !is_advice || self.kinds[column.index] != column.kind {
            return Err(AssignError::WrongColumnKind);
        }
        if offset >= self.n_rows - s {
            return Err(AssignError::RowOutOfRange);
        }
        let row = s + offset;
        proof {
            lemma_grid_index(column.index as int, row as int, self.kinds@.len() as int, self.n_rows as int);
        }
        let i = column.index * self.n_rows + row;
        if self.filled[i] {
            return Err(AssignError::AlreadyAssigned);
        }
        self.cells.set(i, value);
        self.filled.set(i, true);
        let nh = if h > offset + 1 { h } else { offset + 1 };
        self.region = Some((s, nh));
        proof {
            assert(self@.cells =~= old(self)@.cells.update(i as int, value@));
        }
        Ok(AssignedCell { column, row, value })
    }

    /// The error, if any, that loading `len` values into `column` would meet.
    pub fn table_check(&self, column: Column, len: usize) -> (r: Option<AssignError>)
        ensures
            r == table_error(self@, column, len as int),
    {
        if column.index >= self.kinds.len() {
            return Some(AssignError::ColumnOutOfRange);
        }
        let is_fixed = match column.kind {
            ColumnKind::Fixed => true,
            _ => false,
        };
        if !is_fixed || self.kinds[column.index] != column.kind {
            return Some(AssignError::WrongColumnKind);
        }
        if len == 0 {
            return Some(AssignError::EmptyTable);
        }
        if len > self.n_rows {
            return Some(AssignError::TableTooLarge);
        }
        None
    }

    /// Places a one-row region at the next free row: enables `sel` and writes
    /// `cells` there, all or nothing. Returns the row.
    pub fn assign_row(&mut self, sel: Selector, cells: &Vec<(Column, Fe)>) -> (r: Result<usize, AssignError>)
        requires
            old(self).wf(),
        ensures
            final(self).wf(),
            row_fits(old(self)@, sel, cell_values(cells@)) ==> r == Ok::<usize, AssignError>(old(self)@.next_row as usize)
                && final(self)@ == row_assigned(old(self)@, sel, cell_values(cells@)),
            row_error(old(self)@, sel, cell_values(cells@)) matches Some(e) ==> (r == Err::<usize, AssignError>(e)
                && final(self)@ == old(self)@),
    {
        let ghost cv = cell_values(cells@);
        proof {
            lemma_row_error_none(self@, sel, cv);
        }
        if self.region.is_some() {
            return Err(AssignError::RegionAlreadyOpen);
        }
        if sel.index >= self.n_selectors {
            return Err(AssignError::SelectorOutOfRange);
        }
        if self.next_row >= self.n_rows {
            return Err(AssignError::RowOutOfRange);
        }
        let row = self.next_row;
        let mut i: usize = 0;
        while i < cells.len()
            invariant
                self.wf(),
                *self == *old(self),
                row == self@.next_row,
                row < self@.n_rows,
                self@.region is None,
                sel.index < self@.n_selectors,
                cv == cell_values(cells@),
                i <= cells@.len(),
                cells_error(self@, row as int, cv, i as nat) is None,
            decreases cells@.len() - i,
        {
            assert(cv[i as int].0 == cells@[i as int].0);
            if let Some(e) = self.cell_check(cells[i].0, row) {
                proof {
                    assert(cells_error(self@, row as int, cv, (i + 1) as nat) == Some(e));
                    lemma_cells_error_stable(self@, row as int, cv, (i + 1) as nat, cv.len());
                }
                return Err(e);
            }
            let mut j: usize = 0;
            while j < i
                invariant
                    self.wf(),
                    *self == *old(self),
                    cv == cell_values(cells@),
                    i < cells@.len(),
                    j <= i,
                    row == self@.next_row,
                    row < self@.n_rows,
                    self@.region is None,
                    sel.index < self@.n_selectors,
                    cells_error(self@, row as int, cv, i as nat) is None,
                    cell_error(self@, cv[i as int].0, row as int) is None,
                    forall|b: int| 0 <= b < j ==> cv[b].0.index != cv[i as int].0.index,
                decreases i - j,
            {
                assert(cv[j as int].0 == cells@[j as int].0);
                if cells[j].0.index == cells[i].0.index {
                    proof {
                        assert(cv[j as int].0.index == cv[i as int].0.index);
                        assert(cells_error(self@, row as int, cv, (i + 1) as nat) == Some(AssignError::AlreadyAssigned));
                        lemma_cells_error_stable(self@, row as int, cv, (i + 1) as nat, cv.len());
                    }
                    return Err(AssignError::AlreadyAssigned);
                }
                j = j + 1;
            }
            proof {
                assert(!exists|b: int| 0 <= b < i && #[trigger] cv[b].0.index == cv[i as int].0.index);
                assert(cells_error(self@, row as int, cv, (i + 1) as nat) is None);
            }
            i = i + 1;
        }
        proof {
            lemma_cells_error_none(self@, row as int, cv, cv.len());
        }
        assert(row_fits(self@, sel, cv)) by {
            assert forall|a: int| 0 <= a < cv.len() implies cell_free(self@, #[trigger] cv[a].0, self@.next_row as int) by {
                assert(cv[a].0 == cells@[a].0);
            }
            assert forall|a: int, b: int| 0 <= a < b < cv.len() implies #[trigger] cv[a].0.index != #[trigger] cv[b].0.index by {
                assert(cv[a].0 == cells@[a].0);
                assert(cv[b].0 == cells@[b].0);
            }
        }
        assert forall|a: int| 0 <= a < cells@.len() implies cell_free(self@, #[trigger] cells@[a].0, row as int) by {
            assert(cv[a].0 == cells@[a].0);
        }
        let ghost v0 = self@;
        let _ = self.begin_region();
        let _ = self.enable_selector(sel, 0);
        let ghost v1 = self@;
        assert(v1 == with_enabled(opened(v0), sel.index as int, 0));
        let mut k: usize = 0;
        while k < cells.len()
            invariant
                self.wf(),
                row_fits(v0, sel, cv),
                cv == cell_values(cells@),
                v1 == with_enabled(opened(v0), sel.index as int, 0),
                k <= cells@.len(),
                self@ == fill_row(v1, cv, k as nat),
                self@.region == Some((row as nat, 1nat)),
                self@.kinds == v0.kinds,
                self@.n_rows == v0.n_rows,
                row == v0.next_row,
                forall|a: int| k <= a < cells@.len() ==> cell_free(self@, #[trigger] cells@[a].0, row as int),
            decreases cells@.len() - k,
        {
            let ghost prev = self@;
            let col = cells[k].0;
            let val = cells[k].1;
            let res = self.assign_advice(col, 0, val);
            assert(res is Ok);
            proof {
                assert forall|a: int| k < a < cells@.len() implies cell_free(self@, #[trigger] cells@[a].0, row as int) by {
                    assert(cell_free(prev, cells@[a].0, row as int));
                    assert(cv[k as int].0.index != cv[a].0.index);
                    assert(self@ == with_cell(prev, col.index as int, 0, val@));
                    lemma_grid_index(cells@[a].0.index as int, row as int, prev.kinds.len() as int, prev.n_rows as int);
                    let ia = grid_index(cells@[a].0.index as int, row as int, prev.n_rows as int);
                    let ic = grid_index(col.index as int, prev.region->Some_0.0 + 0int, prev.n_rows as int);
                    lemma_grid_index_distinct(cells@[a].0.index as int, col.index as int, row as int, prev.n_rows as int);
                    assert(ia != ic);
                    assert(cell_free(prev, cells@[k as int].0, row as int));
                    lemma_grid_index(col.index as int, row as int, prev.kinds.len() as int, prev.n_rows as int);
                    assert(self@.filled[ia] == prev.filled[ia]);
                    assert(self@.kinds == prev.kinds);
                    assert(self@.n_rows == prev.n_rows);
                }
            }
            k = k + 1;
        }
        let _ = self.end_region();
        Ok(row)
    }

    /// Loads `values` into the fixed `column`, from row 0; the remaining rows
    /// repeat the first value. Loading a table again rewrites the same rows.
    pub fn assign_table(&mut self, column: Column, values: &Vec<Fe>) -> (r: Result<(), AssignError>)
        requires
            old(self).wf(),
        ensures
            final(self).wf(),
            table_error(old(self)@, column, values@.len() as int) matches Some(e) ==> (r == Err::<
                (),
                AssignError,
            >(e) && final(self)@ == old(self)@),
            table_error(old(self)@, column, values@.len() as int) is None ==> r is Ok && final(self)@
                == with_table(old(self)@, column.index as int, values@.map_values(|f: Fe| f@)),
    {
        if column.index >= self.kinds.len() {
            return Err(AssignError::ColumnOutOfRange);
        }
        let is_fixed = match column.kind {
            ColumnKind::Fixed => true,
            _ => false,
        };
        if !is_fixed || self.kinds[column.index] != column.kind {
            return Err(AssignError::WrongColumnKind);
        }
        if values.len() == 0 {
            return Err(AssignError::EmptyTable);
        }
        if values.len() > self.n_rows {
            return Err(AssignError::TableTooLarge);
        }
        let ghost vals = values@.map_values(|f: Fe| f@);
        let ghost old_v = self@;
        let n = self.n_rows;
        proof {
            lemma_grid_index(column.index as int, 0, self.kinds@.len() as int, n as int);
        }
        let base = column.index * n;
        let mut row: usize = 0;
        while row < n
            invariant
                self.wf(),
                n == self.n_rows,
                n == old_v.n_rows,
                base == column.index * n,
                base + n <= self@.cells.len(),
                0 < values@.len() <= n,
                vals == values@.map_values(|f: Fe| f@),
                row <= n,
                self@.kinds == old_v.kinds,
                self@.n_selectors == old_v.n_selectors,
                self@.enabled == old_v.enabled,
                self@.region == old_v.region,
                self@.next_row == old_v.next_row,
                self@.cells == Seq::new(
                    old_v.cells.len(),
                    |i: int|
                        if base <= i < base + row {
                            table_value(vals, i - base)
                        } else {
                            old_v.cells[i]
                        },
                ),
                self@.filled == Seq::new(
                    old_v.filled.len(),
                    |i: int| if base <= i < base + row { true } else { old_v.filled[i] },
                ),
            decreases n - row,
        {
            let v = if row < values.len() {
                values[row]
            } else {
                values[0]
            };
            let i = base + row;
            let ghost prev = self@;
            self.cells.set(i, v);
            self.filled.set(i, true);
            row = row + 1;
            proof {
                assert(v@ == table_value(vals, i - base));
                assert(self@.cells =~= prev.cells.update(i as int, v@));
                assert(self@.filled =~= prev.filled.update(i as int, true));
                assert(self@.cells =~= Seq::new(
                    old_v.cells.len(),
                    |k: int|
                        if base <= k < base + row {
                            table_value(vals, k - base)
                        } else {
                            old_v.cells[k]
                        },
                ));
                assert(self@.filled =~= Seq::new(
                    old_v.filled.len(),
                    |k: int| if base <= k < base + row { true } else { old_v.filled[k] },
                ));
            }
        }
        proof {
            assert(self@ == with_table(old_v, column.index as int, vals));
        }
        Ok(())
    }

    /// Evaluates `e` at `row`; `None` when a query lands outside the rows.
    pub fn evaluate(&self, e: &Expression, row: usize) -> (r: Option<Fe>)
        requires
            self.wf(),
            row < self@.n_rows,
            expr_in_bounds(*e, self@.kinds.len(), self@.n_selectors),
        ensures
            r matches Some(f) ==> eval(*e, self@, row as int) == Some(f@),
            r is None ==> eval(*e, self@, row as int) is None,
        decreases e,
    {
        match e {
            Expression::Constant(c) => Some(*c),
            Expression::Selector(s) => {
                proof {
                    lemma_grid_index(s.index as int, row as int, self.n_selectors as int, self.n_rows as int);
                }
                if self.enabled[s.index * self.n_rows + row] {
                    Some(Fe::one())
                } else {
                    Some(Fe::zero())
                }
            },
            Expression::Query(c, rot) => {
                let target: i64 = row as i64 + *rot as i64;
                if target < 0 || target >= self.n_rows as i64 {
                    None
                } else {
                    let t = target as usize;
                    proof {
                        lemma_grid_index(c.index as int, t as int, self.kinds@.len() as int, self.n_rows as int);
                    }
                    Some(self.cells[c.index * self.n_rows + t])
                }
            },
            Expression::Negated(a) => match self.evaluate(a, row) {
                Some(x) => Some(x.neg()),
                None => None,
            },
            Expression::Sum(a, b) => match self.evaluate(a, row) {
                Some(x) => match self.evaluate(b, row) {
                    Some(y) => Some(x.add(&y)),
                    None => None,
                },
                None => None,
            },
            Expression::Product(a, b) => match self.evaluate(a, row) {
                Some(x) => match self.evaluate(b, row) {
                    Some(y) => Some(x.mul(&y)),
                    None => None,
                },
                None => None,
            },
            Expression::Scaled(a, k) => match self.evaluate(a, row) {
                Some(x) => Some(x.mul(k)),
                None => None,
            },
        }
    }
}

} // verus!
