//! The satisfiability checker: evaluates every gate and lookup on every row
//! of a witness and reports every violation.
use vstd::prelude::*;
use crate::field::Fe;
use crate::expression::{eval, grid_index};
use crate::constraint_system::{ConstraintSystem, Lookup, gate_wf, lookup_wf, pair_wf, table_side_ok};
use crate::witness::{Witness, WitnessView};

verus! {

/// A violated constraint, located by its gate (or lookup) and row.
#[derive(Clone, Copy, Debug, PartialEq, Eq, Structural)]
pub enum Failure {
    ConstraintNotSatisfied { gate: usize, poly: usize, row: usize },
    LookupNotSatisfied { lookup: usize, row: usize },
}

/// Polynomial `k` of gate `g` holds at `row`: its selector is off there,
/// or the polynomial evaluates to zero.
pub open spec fn poly_holds(cs: &ConstraintSystem, w: WitnessView, g: int, k: int, row: int) -> bool {
    !w.enabled[grid_index(cs.gates@[g].selector.index as int, row, w.n_rows as int)]
        || eval(cs.gates@[g].polys@[k], w, row) == Some(0int)
}

/// At `row`, the inputs of `l` equal the table columns of `l` at `trow`.
pub open spec fn row_matches(l: Lookup, w: WitnessView, row: int, trow: int) -> bool {
    forall|j: int|
        0 <= j < l.pairs@.len() ==> #[trigger] eval(l.pairs@[j].0, w, row) == Some(
            w.cells[grid_index(l.pairs@[j].1.index as int, trow, w.n_rows as int)],
        )
}

/// At `row`, the input tuple of `l` is some row of its table.
pub open spec fn lookup_holds(l: Lookup, w: WitnessView, row: int) -> bool {
    exists|trow: int| 0 <= trow < w.n_rows && #[trigger] row_matches(l, w, row, trow)
}

/// `f` names a real violation of `cs` on `w`.
pub open spec fn is_violation(cs: &ConstraintSystem, w: WitnessView, f: Failure) -> bool {
    match f {
        Failure::ConstraintNotSatisfied { gate, poly, row } => gate < cs.gates@.len() && poly
            < cs.gates@[gate as int].polys@.len() && row < w.n_rows && !poly_holds(
            cs,
            w,
            gate as int,
            poly as int,
            row as int,
        ),
        Failure::LookupNotSatisfied { lookup, row } => lookup < cs.lookups@.len() && row < w.n_rows
            && !lookup_holds(cs.lookups@[lookup as int], w, row as int),
    }
}

/// Every gate polynomial vanishes and every lookup holds, on every row.
pub open spec fn satisfied(cs: &ConstraintSystem, w: WitnessView) -> bool {
    &&& forall|g: int, k: int, row: int|
        0 <= g < cs.gates@.len() && 0 <= k < cs.gates@[g].polys@.len() && 0 <= row < w.n_rows
            ==> #[trigger] poly_holds(cs, w, g, k, row)
    &&& forall|l: int, row: int|
        0 <= l < cs.lookups@.len() && 0 <= row < w.n_rows ==> #[trigger] lookup_holds(
            cs.lookups@[l],
            w,
            row,
        )
}

/// `w` was built for the schema `cs`.
pub open spec fn fits(cs: &ConstraintSystem, w: WitnessView) -> bool {
    &&& w.kinds == cs.kinds@
    &&& w.n_selectors == cs.selectors@.len()
}

/// `f` is a gate failure at a position before (`g`, `k`, `row`) in checking order.
pub open spec fn gate_before(f: Failure, g: int, k: int, row: int) -> bool {
    match f {
        Failure::ConstraintNotSatisfied { gate, poly, row: r } => gate < g || (gate == g && (poly < k
            || (poly == k && r < row))),
        _ => false,
    }
}

/// `f` is a lookup failure at a position before (`l`, `row`) in checking order.
pub open spec fn lookup_before(f: Failure, l: int, row: int) -> bool {
    match f {
        Failure::LookupNotSatisfied { lookup, row: r } => lookup < l || (lookup == l && r < row),
        _ => false,
    }
}

proof fn lemma_push_contains(s: Seq<Failure>, x: Failure)
    ensures
        forall|f: Failure| s.contains(f) ==> #[trigger] s.push(x).contains(f),
        s.push(x).contains(x),
{
    assert forall|f: Failure| s.contains(f) implies #[trigger] s.push(x).contains(f) by {
        let i = choose|i: int| 0 <= i < s.len() && s[i] == f;
        assert(s.push(x)[i] == f);
    }
    assert(s.push(x)[s.len() as int] == x);
}

proof fn lemma_push_no_duplicates(s: Seq<Failure>, x: Failure)
    requires
        s.no_duplicates(),
        !s.contains(x),
    ensures
        s.push(x).no_duplicates(),
{
    let t = s.push(x);
    assert forall|i: int, j: int| 0 <= i < t.len() && 0 <= j < t.len() && i != j implies t[i] != t[j] by {
        if i == s.len() as int {
            assert(s[j] == t[j]);
        } else if j == s.len() as int {
            assert(s[i] == t[i]);
        }
    }
}

/// The values of the inputs of `l` at `row`, or `None` when one cannot be evaluated.
fn eval_inputs(w: &Witness, cs: &ConstraintSystem, l: usize, row: usize) -> (r: Option<Vec<Fe>>)
    requires
        cs.wf(),
        w.wf(),
        fits(cs, w@),
        l < cs.lookups@.len(),
        row < w@.n_rows,
    ensures
        r matches Some(vs) ==> vs@.len() == cs.lookups@[l as int].pairs@.len() && forall|j: int|
            0 <= j < vs@.len() ==> #[trigger] eval(cs.lookups@[l as int].pairs@[j].0, w@, row as int)
                == Some(vs@[j]@),
        r is None ==> exists|j: int|
            0 <= j < cs.lookups@[l as int].pairs@.len() && #[trigger] eval(
                cs.lookups@[l as int].pairs@[j].0,
                w@,
                row as int,
            ) is None,
{
    let lk = &cs.lookups[l];
    assert(lookup_wf(*lk, cs.kinds@, cs.selectors@.len()));
    let mut vs: Vec<Fe> = Vec::new();
    let mut j: usize = 0;
    while j < lk.pairs.len()
        invariant
            cs.wf(),
            w.wf(),
            fits(cs, w@),
            *lk == cs.lookups@[l as int],
            lookup_wf(*lk, cs.kinds@, cs.selectors@.len()),
            row < w@.n_rows,
            j <= lk.pairs@.len(),
            vs@.len() == j,
            forall|i: int| 0 <= i < j ==> #[trigger] eval(lk.pairs@[i].0, w@, row as int) == Some(vs@[i]@),
        decreases lk.pairs@.len() - j,
    {
        assert(pair_wf(lk.pairs@[j as int], cs.kinds@, cs.selectors@.len()));
        match w.evaluate(&lk.pairs[j].0, row) {
            Some(v) => vs.push(v),
            None => {
                return None;
            },
        }
        j = j + 1;
    }
    Some(vs)
}

/// Whether the table columns of `l` hold `vs` at `trow`.
fn table_row_equals(w: &Witness, cs: &ConstraintSystem, l: usize, vs: &Vec<Fe>, trow: usize) -> (r: bool)
    requires
        cs.wf(),
        w.wf(),
        fits(cs, w@),
        l < cs.lookups@.len(),
        vs@.len() == cs.lookups@[l as int].pairs@.len(),
        trow < w@.n_rows,
    ensures
        r == forall|j: int|
            0 <= j < vs@.len() ==> vs@[j]@ == #[trigger] w@.cells[grid_index(
                cs.lookups@[l as int].pairs@[j].1.index as int,
                trow as int,
                w@.n_rows as int,
            )],
{
    let lk = &cs.lookups[l];
    assert(lookup_wf(*lk, cs.kinds@, cs.selectors@.len()));
    let mut j: usize = 0;
    while j < vs.len()
        invariant
            w.wf(),
            fits(cs, w@),
            *lk == cs.lookups@[l as int],
            lookup_wf(*lk, cs.kinds@, cs.selectors@.len()),
            vs@.len() == lk.pairs@.len(),
            trow < w@.n_rows,
            j <= vs@.len(),
            forall|i: int|
                0 <= i < j ==> vs@[i]@ == #[trigger] w@.cells[grid_index(
                    lk.pairs@[i].1.index as int,
                    trow as int,
                    w@.n_rows as int,
                )],
        decreases vs@.len() - j,
    {
        assert(pair_wf(lk.pairs@[j as int], cs.kinds@, cs.selectors@.len()));
        assert(table_side_ok(lk.pairs@[j as int].1, cs.kinds@));
        let cell = w.value(lk.pairs[j].1, trow);
        if !vs[j].equals(&cell) {
            return false;
        }
        j = j + 1;
    }
    true
}

/// Whether the lookup `l` holds at `row`.
fn check_lookup_row(w: &Witness, cs: &ConstraintSystem, l: usize, row: usize) -> (r: bool)
    requires
        cs.wf(),
        w.wf(),
        fits(cs, w@),
        l < cs.lookups@.len(),
        row < w@.n_rows,
    ensures
        r == lookup_holds(cs.lookups@[l as int], w@, row as int),
{
    let ghost lk = cs.lookups@[l as int];
    match eval_inputs(w, cs, l, row) {
        None => {
            proof {
                let j = choose|j: int| 0 <= j < lk.pairs@.len() && #[trigger] eval(lk.pairs@[j].0, w@, row as int) is None;
                assert forall|trow: int| 0 <= trow < w@.n_rows implies !#[trigger] row_matches(lk, w@, row as int, trow) by {
                    assert(eval(lk.pairs@[j].0, w@, row as int) is None);
                }
            }
            false
        },
        Some(vs) => {
            let mut trow: usize = 0;
            while trow < w.n_rows()
                invariant
                    cs.wf(),
                    w.wf(),
                    fits(cs, w@),
                    l < cs.lookups@.len(),
                    lk == cs.lookups@[l as int],
                    row < w@.n_rows,
                    trow <= w@.n_rows,
                    vs@.len() == lk.pairs@.len(),
                    forall|j: int| 0 <= j < vs@.len() ==> #[trigger] eval(lk.pairs@[j].0, w@, row as int) == Some(vs@[j]@),
                    forall|t: int| 0 <= t < trow ==> !#[trigger] row_matches(lk, w@, row as int, t),
                decreases w@.n_rows - trow,
            {
                if table_row_equals(w, cs, l, &vs, trow) {
                    proof {
                        assert(row_matches(lk, w@, row as int, trow as int));
                    }
                    return true;
                }
                proof {
                    assert(!row_matches(lk, w@, row as int, trow as int)) by {
                        let j = choose|j: int| 0 <= j < vs@.len() && vs@[j]@ != #[trigger] w@.cells[grid_index(
                            lk.pairs@[j].1.index as int,
                            trow as int,
                            w@.n_rows as int,
                        )];
                        assert(eval(lk.pairs@[j].0, w@, row as int) == Some(vs@[j]@));
                    }
                }
                trow = trow + 1;
            }
            false
        },
    }
}

/// Checks every gate polynomial and every lookup on every row of `w` and
/// returns all violations found: each reported failure is a real violation,
/// every violation is reported, and the report is empty exactly when `w`
/// satisfies `cs`.
pub fn verify(cs: &ConstraintSystem, w: &Witness) -> (r: Vec<Failure>)
    requires
        cs.wf(),
        w.wf(),
        fits(cs, w@),
    ensures
        forall|i: int| 0 <= i < r@.len() ==> is_violation(cs, w@, #[trigger] r@[i]),
        forall|f: Failure| #[trigger] is_violation(cs, w@, f) ==> r@.contains(f),
        r@.no_duplicates(),
        r@.len() == 0 <==> satisfied(cs, w@),
{
    let mut out: Vec<Failure> = Vec::new();
    let n = w.n_rows();
    let mut g: usize = 0;
    while g < cs.gates.len()
        invariant
            cs.wf(),
            w.wf(),
            fits(cs, w@),
            n == w@.n_rows,
            g <= cs.gates@.len(),
            forall|i: int| 0 <= i < g ==> (#[trigger] cs.gates@[i]).polys@.len() <= usize::MAX,
            forall|i: int| 0 <= i < out@.len() ==> is_violation(cs, w@, #[trigger] out@[i]),
            forall|f: Failure| #[trigger] is_violation(cs, w@, f) && gate_before(f, g as int, 0, 0) ==> out@.contains(f),
            forall|i: int| 0 <= i < out@.len() ==> gate_before(#[trigger] out@[i], g as int, 0, 0),
            out@.no_duplicates(),
        decreases cs.gates@.len() - g,
    {
        let gate = &cs.gates[g];
        assert(gate_wf(*gate, cs.kinds@.len(), cs.selectors@.len()));
        let mut k: usize = 0;
        while k < gate.polys.len()
            invariant
                cs.wf(),
                w.wf(),
                fits(cs, w@),
                n == w@.n_rows,
                g < cs.gates@.len(),
                *gate == cs.gates@[g as int],
                gate_wf(*gate, cs.kinds@.len(), cs.selectors@.len()),
                k <= gate.polys@.len(),
                forall|i: int| 0 <= i < out@.len() ==> is_violation(cs, w@, #[trigger] out@[i]),
                forall|f: Failure| #[trigger] is_violation(cs, w@, f) && gate_before(f, g as int, k as int, 0) ==> out@.contains(f),
                forall|i: int| 0 <= i < out@.len() ==> gate_before(#[trigger] out@[i], g as int, k as int, 0),
                out@.no_duplicates(),
            decreases gate.polys@.len() - k,
        {
            let mut row: usize = 0;
            while row < n
                invariant
                    cs.wf(),
                    w.wf(),
                    fits(cs, w@),
                    n == w@.n_rows,
                    g < cs.gates@.len(),
                    *gate == cs.gates@[g as int],
                    gate_wf(*gate, cs.kinds@.len(), cs.selectors@.len()),
                    k < gate.polys@.len(),
                    row <= n,
                    forall|i: int| 0 <= i < out@.len() ==> is_violation(cs, w@, #[trigger] out@[i]),
                    forall|f: Failure| #[trigger] is_violation(cs, w@, f) && gate_before(f, g as int, k as int, row as int) ==> out@.contains(f),
                    forall|i: int| 0 <= i < out@.len() ==> gate_before(#[trigger] out@[i], g as int, k as int, row as int),
                    out@.no_duplicates(),
                decreases n - row,
            {
                assert(crate::expression::expr_in_bounds(gate.polys@[k as int], cs.kinds@.len(), cs.selectors@.len()));
                let holds = if !w.is_enabled(gate.selector, row) {
                    true
                } else {
                    match w.evaluate(&gate.polys[k], row) {
                        Some(v) => v.is_zero(),
                        None => false,
                    }
                };
                if !holds {
                    let f = Failure::ConstraintNotSatisfied { gate: g, poly: k, row };
                    proof {
                        lemma_push_contains(out@, f);
                        if out@.contains(f) {
                            let i = choose|i: int| 0 <= i < out@.len() && out@[i] == f;
                            assert(gate_before(out@[i], g as int, k as int, row as int));
                        }
                        lemma_push_no_duplicates(out@, f);
                    }
                    out.push(f);
                }
                row = row + 1;
            }
            k = k + 1;
        }
        let n_polys = gate.polys.len();
        assert(cs.gates@[g as int].polys@.len() == n_polys);
        g = g + 1;
    }
    let n_gates = cs.gates.len();
    let n_lookups = cs.lookups.len();
    let mut l: usize = 0;
    while l < cs.lookups.len()
        invariant
            cs.wf(),
            w.wf(),
            fits(cs, w@),
            n == w@.n_rows,
            n_gates == cs.gates@.len(),
            n_lookups == cs.lookups@.len(),
            l <= cs.lookups@.len(),
            forall|i: int| 0 <= i < cs.gates@.len() ==> (#[trigger] cs.gates@[i]).polys@.len() <= usize::MAX,
            forall|i: int| 0 <= i < out@.len() ==> is_violation(cs, w@, #[trigger] out@[i]),
            forall|f: Failure| #[trigger] is_violation(cs, w@, f) && gate_before(f, cs.gates@.len() as int, 0, 0) ==> out@.contains(f),
            forall|f: Failure| #[trigger] is_violation(cs, w@, f) && lookup_before(f, l as int, 0) ==> out@.contains(f),
            forall|i: int| 0 <= i < out@.len() ==> (#[trigger] out@[i] is ConstraintNotSatisfied || lookup_before(out@[i], l as int, 0)),
            out@.no_duplicates(),
        decreases cs.lookups@.len() - l,
    {
        let mut row: usize = 0;
        while row < n
            invariant
                cs.wf(),
                w.wf(),
                fits(cs, w@),
                n == w@.n_rows,
                l < cs.lookups@.len(),
                row <= n,
                forall|i: int| 0 <= i < out@.len() ==> is_violation(cs, w@, #[trigger] out@[i]),
                forall|f: Failure| #[trigger] is_violation(cs, w@, f) && gate_before(f, cs.gates@.len() as int, 0, 0) ==> out@.contains(f),
                forall|f: Failure| #[trigger] is_violation(cs, w@, f) && lookup_before(f, l as int, row as int) ==> out@.contains(f),
                forall|i: int| 0 <= i < out@.len() ==> (#[trigger] out@[i] is ConstraintNotSatisfied || lookup_before(out@[i], l as int, row as int)),
                out@.no_duplicates(),
            decreases n - row,
        {
            if !check_lookup_row(w, cs, l, row) {
                let f = Failure::LookupNotSatisfied { lookup: l, row };
                proof {
                    lemma_push_contains(out@, f);
                    if out@.contains(f) {
                        let i = choose|i: int| 0 <= i < out@.len() && out@[i] == f;
                        assert(lookup_before(out@[i], l as int, row as int));
                    }
                    lemma_push_no_duplicates(out@, f);
                }
                out.push(f);
            }
            row = row + 1;
        }
        l = l + 1;
    }
    proof {
        assert forall|f: Failure| #[trigger] is_violation(cs, w@, f) implies out@.contains(f) by {
            match f {
                Failure::ConstraintNotSatisfied { .. } => assert(gate_before(f, cs.gates@.len() as int, 0, 0)),
                Failure::LookupNotSatisfied { .. } => assert(lookup_before(f, cs.lookups@.len() as int, 0)),
            }
        }
        if out@.len() == 0 {
            assert forall|g: int, k: int, row: int|
                0 <= g < cs.gates@.len() && 0 <= k < cs.gates@[g].polys@.len() && 0 <= row < w@.n_rows
                    implies #[trigger] poly_holds(cs, w@, g, k, row) by {
                let f = Failure::ConstraintNotSatisfied { gate: g as usize, poly: k as usize, row: row as usize };
                if !poly_holds(cs, w@, g, k, row) {
                    assert(is_violation(cs, w@, f));
                    assert(out@.contains(f));
                }
            }
            assert forall|l: int, row: int|
                0 <= l < cs.lookups@.len() && 0 <= row < w@.n_rows implies #[trigger] lookup_holds(cs.lookups@[l], w@, row) by {
                let f = Failure::LookupNotSatisfied { lookup: l as usize, row: row as usize };
                if !lookup_holds(cs.lookups@[l], w@, row) {
                    assert(is_violation(cs, w@, f));
                    assert(out@.contains(f));
                }
            }
        }
        if satisfied(cs, w@) && out@.len() > 0 {
            assert(is_violation(cs, w@, out@[0]));
            match out@[0] {
                Failure::ConstraintNotSatisfied { gate, poly, row } => assert(poly_holds(cs, w@, gate as int, poly as int, row as int)),
                Failure::LookupNotSatisfied { lookup, row } => assert(lookup_holds(cs.lookups@[lookup as int], w@, row as int)),
            }
        }
    }
    out
}

} // verus!
