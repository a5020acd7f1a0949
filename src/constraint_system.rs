//! Configure-time registry of columns, selectors, gates and lookup arguments.
use vstd::prelude::*;
use crate::expression::{Column, ColumnKind, Expression, Selector, expr_in_bounds, uses_simple_selector};

verus! {

/// Why a configuration step was refused.
#[derive(Clone, Copy, Debug, PartialEq, Eq, Structural)]
pub enum ConfigError {
    /// An expression mentions a column or selector that was never allocated.
    UnknownColumnOrSelector,
    /// A lookup's table side is not a fixed column.
    TableColumnNotFixed,
    /// A lookup input mentions a simple selector.
    SimpleSelectorInLookup,
    /// A tiered table whose range is not two to the power of its bit count.
    TableShapeMismatch,
}

/// A named set of polynomials that must vanish on every row where the
/// gate's selector is on.
pub struct Gate {
    pub name: String,
    pub selector: Selector,
    pub polys: Vec<Expression>,
}

/// A named lookup: at every row, the tuple of input values must equal the
/// tuple of the paired table columns at some single row.
pub struct Lookup {
    pub name: String,
    pub pairs: Vec<(Expression, Column)>,
}

/// The schema of a circuit.
pub struct ConstraintSystem {
    pub kinds: Vec<ColumnKind>,
    pub selectors: Vec<bool>,
    pub gates: Vec<Gate>,
    pub lookups: Vec<Lookup>,
}

/// The selector of `g` and every polynomial of `g` mention only allocated
/// columns and selectors.
pub open spec fn gate_wf(g: Gate, n_columns: nat, n_selectors: nat) -> bool {
    &&& g.selector.index < n_selectors
    &&& forall|k: int| 0 <= k < g.polys@.len() ==> expr_in_bounds(#[trigger] g.polys@[k], n_columns, n_selectors)
}

/// The pair of a lookup is well formed: the input is in bounds, mentions no
/// simple selector, and the table side is an allocated fixed column.
pub open spec fn pair_wf(p: (Expression, Column), kinds: Seq<ColumnKind>, n_selectors: nat) -> bool {
    &&& expr_in_bounds(p.0, kinds.len(), n_selectors)
    &&& !uses_simple_selector(p.0)
    &&& table_side_ok(p.1, kinds)
}

/// `c` is an allocated fixed column.
pub open spec fn table_side_ok(c: Column, kinds: Seq<ColumnKind>) -> bool {
    &&& c.index < kinds.len()
    &&& c.kind == ColumnKind::Fixed
    &&& kinds[c.index as int] == ColumnKind::Fixed
}

pub open spec fn lookup_wf(l: Lookup, kinds: Seq<ColumnKind>, n_selectors: nat) -> bool {
    forall|j: int| 0 <= j < l.pairs@.len() ==> pair_wf(#[trigger] l.pairs@[j], kinds, n_selectors)
}

/// The error, if any, that registering `pairs` as a lookup meets.
pub open spec fn lookup_error(pairs: Seq<(Expression, Column)>, kinds: Seq<ColumnKind>, n_selectors: nat) -> Option<ConfigError> {
    if exists|j: int| 0 <= j < pairs.len() && !expr_in_bounds(#[trigger] pairs[j].0, kinds.len(), n_selectors) {
        Some(ConfigError::UnknownColumnOrSelector)
    } else if exists|j: int| 0 <= j < pairs.len() && !table_side_ok(#[trigger] pairs[j].1, kinds) {
        Some(ConfigError::TableColumnNotFixed)
    } else if exists|j: int| 0 <= j < pairs.len() && uses_simple_selector(#[trigger] pairs[j].0) {
        Some(ConfigError::SimpleSelectorInLookup)
    } else {
        None
    }
}

impl ConstraintSystem {
    /// Every gate and lookup refers only to allocated columns and selectors.
    pub open spec fn wf(&self) -> bool {
        &&& forall|g: int| 0 <= g < self.gates@.len() ==> gate_wf(#[trigger] self.gates@[g], self.kinds@.len(), self.selectors@.len())
        &&& forall|l: int| 0 <= l < self.lookups@.len() ==> lookup_wf(#[trigger] self.lookups@[l], self.kinds@, self.selectors@.len())
    }

    /// `self` only grew from `old`: its columns, selectors, gates and lookups extend those of `old`.
    pub open spec fn extends(&self, old: &ConstraintSystem) -> bool {
        &&& old.kinds@.is_prefix_of(self.kinds@)
        &&& old.selectors@.is_prefix_of(self.selectors@)
        &&& old.gates@.is_prefix_of(self.gates@)
        &&& old.lookups@.is_prefix_of(self.lookups@)
    }

    pub fn new() -> (r: ConstraintSystem)
        ensures
            r.wf(),
            r.kinds@.len() == 0,
            r.selectors@.len() == 0,
            r.gates@.len() == 0,
            r.lookups@.len() == 0,
    {
        ConstraintSystem { kinds: Vec::new(), selectors: Vec::new(), gates: Vec::new(), lookups: Vec::new() }
    }

    fn new_column(&mut self, kind: ColumnKind) -> (r: Column)
        requires
            old(self).wf(),
            old(self).kinds@.len() < usize::MAX,
        ensures
            final(self).wf(),
            r == (Column { index: old(self).kinds@.len() as usize, kind }),
            final(self).kinds@ == old(self).kinds@.push(kind),
            final(self).selectors@ == old(self).selectors@,
            final(self).gates@ == old(self).gates@,
            final(self).lookups@ == old(self).lookups@,
    {
        let index = self.kinds.len();
        self.kinds.push(kind);
        proof {
            assert forall|g: int| 0 <= g < self.gates@.len() implies gate_wf(#[trigger] self.gates@[g], self.kinds@.len(), self.selectors@.len()) by {
                let gate = self.gates@[g];
                assert(gate_wf(gate, old(self).kinds@.len(), self.selectors@.len()));
                assert forall|k: int| 0 <= k < gate.polys@.len() implies expr_in_bounds(#[trigger] gate.polys@[k], self.kinds@.len(), self.selectors@.len()) by {
                    lemma_bounds_grow(gate.polys@[k], old(self).kinds@.len(), self.selectors@.len(), self.kinds@.len(), self.selectors@.len());
                }
            }
            assert forall|l: int| 0 <= l < self.lookups@.len() implies lookup_wf(#[trigger] self.lookups@[l], self.kinds@, self.selectors@.len()) by {
                let lk = self.lookups@[l];
                assert(lookup_wf(lk, old(self).kinds@, self.selectors@.len()));
                assert forall|j: int| 0 <= j < lk.pairs@.len() implies pair_wf(#[trigger] lk.pairs@[j], self.kinds@, self.selectors@.len()) by {
                    assert(pair_wf(lk.pairs@[j], old(self).kinds@, self.selectors@.len()));
                    lemma_bounds_grow(lk.pairs@[j].0, old(self).kinds@.len(), self.selectors@.len(), self.kinds@.len(), self.selectors@.len());
                }
            }
        }
        Column { index, kind }
    }

    fn new_selector(&mut self, simple: bool) -> (r: Selector)
        requires
            old(self).wf(),
            old(self).selectors@.len() < usize::MAX,
        ensures
            final(self).wf(),
            r == (Selector { index: old(self).selectors@.len() as usize, simple }),
            final(self).kinds@ == old(self).kinds@,
            final(self).selectors@ == old(self).selectors@.push(simple),
            final(self).gates@ == old(self).gates@,
            final(self).lookups@ == old(self).lookups@,
    {
        let index = self.selectors.len();
        self.selectors.push(simple);
        proof {
            assert forall|g: int| 0 <= g < self.gates@.len() implies gate_wf(#[trigger] self.gates@[g], self.kinds@.len(), self.selectors@.len()) by {
                let gate = self.gates@[g];
                assert(gate_wf(gate, self.kinds@.len(), old(self).selectors@.len()));
                assert forall|k: int| 0 <= k < gate.polys@.len() implies expr_in_bounds(#[trigger] gate.polys@[k], self.kinds@.len(), self.selectors@.len()) by {
                    lemma_bounds_grow(gate.polys@[k], self.kinds@.len(), old(self).selectors@.len(), self.kinds@.len(), self.selectors@.len());
                }
            }
            assert forall|l: int| 0 <= l < self.lookups@.len() implies lookup_wf(#[trigger] self.lookups@[l], self.kinds@, self.selectors@.len()) by {
                let lk = self.lookups@[l];
                assert(lookup_wf(lk, self.kinds@, old(self).selectors@.len()));
                assert forall|j: int| 0 <= j < lk.pairs@.len() implies pair_wf(#[trigger] lk.pairs@[j], self.kinds@, self.selectors@.len()) by {
                    assert(pair_wf(lk.pairs@[j], self.kinds@, old(self).selectors@.len()));
                    lemma_bounds_grow(lk.pairs@[j].0, self.kinds@.len(), old(self).selectors@.len(), self.kinds@.len(), self.selectors@.len());
                }
            }
        }
        Selector { index, simple }
    }

    /// Allocates a witness column.
    pub fn advice_column(&mut self) -> (r: Column)
        requires
            old(self).wf(),
            old(self).kinds@.len() < usize::MAX,
        ensures
            final(self).wf(),
            r == (Column { index: old(self).kinds@.len() as usize, kind: ColumnKind::Advice }),
            final(self).kinds@ == old(self).kinds@.push(ColumnKind::Advice),
            final(self).selectors@ == old(self).selectors@,
            final(self).gates@ == old(self).gates@,
            final(self).lookups@ == old(self).lookups@,
    {
        self.new_column(ColumnKind::Advice)
    }

    /// Allocates a fixed column that lookups may use as a table.
    pub fn lookup_table_column(&mut self) -> (r: Column)
        requires
            old(self).wf(),
            old(self).kinds@.len() < usize::MAX,
        ensures
            final(self).wf(),
            r == (Column { index: old(self).kinds@.len() as usize, kind: ColumnKind::Fixed }),
            final(self).kinds@ == old(self).kinds@.push(ColumnKind::Fixed),
            final(self).selectors@ == old(self).selectors@,
            final(self).gates@ == old(self).gates@,
            final(self).lookups@ == old(self).lookups@,
    {
        self.new_column(ColumnKind::Fixed)
    }

    /// Allocates a public-input column.
    pub fn instance_column(&mut self) -> (r: Column)
        requires
            old(self).wf(),
            old(self).kinds@.len() < usize::MAX,
        ensures
            final(self).wf(),
            r == (Column { index: old(self).kinds@.len() as usize, kind: ColumnKind::Instance }),
            final(self).kinds@ == old(self).kinds@.push(ColumnKind::Instance),
            final(self).selectors@ == old(self).selectors@,
            final(self).gates@ == old(self).gates@,
            final(self).lookups@ == old(self).lookups@,
    {
        self.new_column(ColumnKind::Instance)
    }

    /// Allocates a simple selector.
    pub fn selector(&mut self) -> (r: Selector)
        requires
            old(self).wf(),
            old(self).selectors@.len() < usize::MAX,
        ensures
            final(self).wf(),
            r == (Selector { index: old(self).selectors@.len() as usize, simple: true }),
            final(self).kinds@ == old(self).kinds@,
            final(self).selectors@ == old(self).selectors@.push(true),
            final(self).gates@ == old(self).gates@,
            final(self).lookups@ == old(self).lookups@,
    {
        self.new_selector(true)
    }

    /// Allocates a complex selector, which lookup inputs may use.
    pub fn complex_selector(&mut self) -> (r: Selector)
        requires
            old(self).wf(),
            old(self).selectors@.len() < usize::MAX,
        ensures
            final(self).wf(),
            r == (Selector { index: old(self).selectors@.len() as usize, simple: false }),
            final(self).kinds@ == old(self).kinds@,
            final(self).selectors@ == old(self).selectors@.push(false),
            final(self).gates@ == old(self).gates@,
            final(self).lookups@ == old(self).lookups@,
    {
        self.new_selector(false)
    }

    /// Registers a gate under `selector`; refused when the selector or a
    /// polynomial mentions an unknown column or selector.
    pub fn create_gate(&mut self, name: String, selector: Selector, polys: Vec<Expression>) -> (r: Result<(), ConfigError>)
        requires
            old(self).wf(),
        ensures
            final(self).wf(),
            final(self).kinds@ == old(self).kinds@,
            final(self).selectors@ == old(self).selectors@,
            final(self).lookups@ == old(self).lookups@,
            gate_wf(Gate { name, selector, polys }, old(self).kinds@.len(), old(self).selectors@.len()) ==> (r is Ok
                && final(self).gates@ == old(self).gates@.push(Gate { name, selector, polys })),
            !gate_wf(Gate { name, selector, polys }, old(self).kinds@.len(), old(self).selectors@.len()) ==> (r
                == Err::<(), ConfigError>(ConfigError::UnknownColumnOrSelector) && final(self).gates@
                == old(self).gates@),
    {
        let n_columns = self.kinds.len();
        let n_selectors = self.selectors.len();
        if selector.index >= n_selectors {
            return Err(ConfigError::UnknownColumnOrSelector);
        }
        let mut k: usize = 0;
        while k < polys.len()
            invariant
                self.wf(),
                self.kinds@ == old(self).kinds@,
                self.selectors@ == old(self).selectors@,
                self.gates@ == old(self).gates@,
                self.lookups@ == old(self).lookups@,
                n_columns == self.kinds@.len(),
                n_selectors == self.selectors@.len(),
                k <= polys@.len(),
                forall|i: int| 0 <= i < k ==> expr_in_bounds(#[trigger] polys@[i], n_columns as nat, n_selectors as nat),
            decreases polys@.len() - k,
        {
            if !polys[k].in_bounds(n_columns, n_selectors) {
                proof {
                    let g = Gate { name, selector, polys };
                    assert(g.polys@[k as int] == polys@[k as int]);
                    assert(!expr_in_bounds(g.polys@[k as int], n_columns as nat, n_selectors as nat));
                }
                return Err(ConfigError::UnknownColumnOrSelector);
            }
            k = k + 1;
        }
        self.gates.push(Gate { name, selector, polys });
        Ok(())
    }

    /// Registers a lookup of the `pairs` (input, table column). Refused when an
    /// input mentions an unknown column or selector, when a table side is not a
    /// fixed column, or when an input mentions a simple selector.
    pub fn lookup(&mut self, name: String, pairs: Vec<(Expression, Column)>) -> (r: Result<(), ConfigError>)
        requires
            old(self).wf(),
        ensures
            final(self).wf(),
            final(self).kinds@ == old(self).kinds@,
            final(self).selectors@ == old(self).selectors@,
            final(self).gates@ == old(self).gates@,
            lookup_error(pairs@, old(self).kinds@, old(self).selectors@.len()) is None ==> (r is Ok
                && final(self).lookups@ == old(self).lookups@.push(Lookup { name, pairs })),
            lookup_error(pairs@, old(self).kinds@, old(self).selectors@.len()) matches Some(e) ==> (r
                == Err::<(), ConfigError>(e) && final(self).lookups@ == old(self).lookups@),
    {
        let n_columns = self.kinds.len();
        let n_selectors = self.selectors.len();
        let mut j: usize = 0;
        while j < pairs.len()
            invariant
                self.wf(),
                self.kinds@ == old(self).kinds@,
                self.selectors@ == old(self).selectors@,
                self.gates@ == old(self).gates@,
                self.lookups@ == old(self).lookups@,
                n_columns == self.kinds@.len(),
                n_selectors == self.selectors@.len(),
                j <= pairs@.len(),
                forall|i: int| 0 <= i < j ==> expr_in_bounds(#[trigger] pairs@[i].0, n_columns as nat, n_selectors as nat),
            decreases pairs@.len() - j,
        {
            if !pairs[j].0.in_bounds(n_columns, n_selectors) {
                return Err(ConfigError::UnknownColumnOrSelector);
            }
            j = j + 1;
        }
        j = 0;
        while j < pairs.len()
            invariant
                self.wf(),
                self.kinds@ == old(self).kinds@,
                self.selectors@ == old(self).selectors@,
                self.gates@ == old(self).gates@,
                self.lookups@ == old(self).lookups@,
                n_columns == self.kinds@.len(),
                n_selectors == self.selectors@.len(),
                j <= pairs@.len(),
                forall|i: int| 0 <= i < pairs@.len() ==> expr_in_bounds(#[trigger] pairs@[i].0, n_columns as nat, n_selectors as nat),
                forall|i: int| 0 <= i < j ==> table_side_ok(#[trigger] pairs@[i].1, self.kinds@),
            decreases pairs@.len() - j,
        {
            let c = pairs[j].1;
            if c.index >= n_columns {
                return Err(ConfigError::TableColumnNotFixed);
            }
            let fixed = match c.kind {
                ColumnKind::Fixed => true,
                _ => false,
            } && match self.kinds[c.index] {
                ColumnKind::Fixed => true,
                _ => false,
            };
            if !fixed {
                return Err(ConfigError::TableColumnNotFixed);
            }
            j = j + 1;
        }
        j = 0;
        while j < pairs.len()
            invariant
                self.wf(),
                self.kinds@ == old(self).kinds@,
                self.selectors@ == old(self).selectors@,
                self.gates@ == old(self).gates@,
                self.lookups@ == old(self).lookups@,
                n_columns == self.kinds@.len(),
                n_selectors == self.selectors@.len(),
                j <= pairs@.len(),
                forall|i: int| 0 <= i < pairs@.len() ==> expr_in_bounds(#[trigger] pairs@[i].0, n_columns as nat, n_selectors as nat),
                forall|i: int| 0 <= i < pairs@.len() ==> table_side_ok(#[trigger] pairs@[i].1, self.kinds@),
                forall|i: int| 0 <= i < j ==> !uses_simple_selector(#[trigger] pairs@[i].0),
            decreases pairs@.len() - j,
        {
            if pairs[j].0.has_simple_selector() {
                return Err(ConfigError::SimpleSelectorInLookup);
            }
            j = j + 1;
        }
        proof {
            let l = Lookup { name, pairs };
            assert forall|i: int| 0 <= i < l.pairs@.len() implies pair_wf(#[trigger] l.pairs@[i], self.kinds@, self.selectors@.len()) by {
                assert(expr_in_bounds(pairs@[i].0, n_columns as nat, n_selectors as nat));
                assert(!uses_simple_selector(pairs@[i].0));
                assert(table_side_ok(pairs@[i].1, self.kinds@));
            }
        }
        self.lookups.push(Lookup { name, pairs });
        Ok(())
    }
}

/// An expression in bounds stays in bounds when more columns and selectors exist.
pub proof fn lemma_bounds_grow(e: Expression, c1: nat, s1: nat, c2: nat, s2: nat)
    requires
        expr_in_bounds(e, c1, s1),
        c1 <= c2,
        s1 <= s2,
    ensures
        expr_in_bounds(e, c2, s2),
    decreases e,
{
    match e {
        Expression::Negated(a) => lemma_bounds_grow(*a, c1, s1, c2, s2),
        Expression::Sum(a, b) => {
            lemma_bounds_grow(*a, c1, s1, c2, s2);
            lemma_bounds_grow(*b, c1, s1, c2, s2);
        },
        Expression::Product(a, b) => {
            lemma_bounds_grow(*a, c1, s1, c2, s2);
            lemma_bounds_grow(*b, c1, s1, c2, s2);
        },
        Expression::Scaled(a, _) => lemma_bounds_grow(*a, c1, s1, c2, s2),
        _ => {},
    }
}

} // verus!
