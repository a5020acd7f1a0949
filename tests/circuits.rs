use halo2_gadgets_core::constraint_system::ConstraintSystem;
use halo2_gadgets_core::field::Fe;
use halo2_gadgets_core::function::{FunctionChip, FunctionCircuit};
use halo2_gadgets_core::prover::{verify, Failure};
use halo2_gadgets_core::range_check::lookup;
use halo2_gadgets_core::range_check::tagged;
use halo2_gadgets_core::range_check::RangeCheckConfig;
use halo2_gadgets_core::witness::Witness;

fn witness_for(cs: &ConstraintSystem, k: u32) -> Witness {
    Witness::new(&cs.kinds, cs.selectors.len(), 1usize << k)
}

fn run_function(a: u64, b: u64, c: u64) -> (ConstraintSystem, Witness, Fe) {
    let mut cs = ConstraintSystem::new();
    let config = FunctionCircuit::configure(&mut cs);
    let mut w = witness_for(&cs, 4);
    let chip = FunctionChip::construct(config);
    let out = chip
        .assign(&mut w, Fe::from_u64(a), Fe::from_u64(b), Fe::from_u64(c))
        .unwrap();
    (cs, w, out.value)
}

#[test]
fn test_example3() {
    let mut cs = ConstraintSystem::new();
    let config = FunctionCircuit::configure(&mut cs);
    let circuit = FunctionCircuit { a: Fe::from_u64(10), b: Fe::from_u64(12), c: Fe::from_u64(15) };
    let mut w = witness_for(&cs, 4);
    circuit.synthesize(config, &mut w).unwrap();
    assert!(verify(&cs, &w).is_empty());
}

fn poly_check(v: u64) -> Vec<Failure> {
    let mut cs = ConstraintSystem::new();
    let value = cs.advice_column();
    let config = RangeCheckConfig::configure(&mut cs, value, 8).unwrap();
    let mut w = witness_for(&cs, 4);
    config.assign(&mut w, Fe::from_u64(v)).unwrap();
    verify(&cs, &w)
}

#[test]
fn test_range_check_1() {
    for i in 0..8u64 {
        assert!(poly_check(i).is_empty());
    }
    // The product vanishes only inside [0, 8): the value 8 is rejected.
    assert_eq!(
        poly_check(8),
        vec![Failure::ConstraintNotSatisfied { gate: 0, poly: 0, row: 0 }]
    );
}

fn flat_check(value: u64, large_value: u64) -> Vec<Failure> {
    let mut cs = ConstraintSystem::new();
    let col = cs.advice_column();
    let config = lookup::RangeCheckConfig::configure(&mut cs, col, 8, 256).unwrap();
    let mut w = witness_for(&cs, 9);
    config.assign(&mut w, Fe::from_u64(value), 8).unwrap();
    config.assign(&mut w, Fe::from_u64(large_value), 256).unwrap();
    config.table.load(&mut w).unwrap();
    verify(&cs, &w)
}

#[test]
fn test_range_check_2() {
    for i in 0..8u64 {
        assert!(flat_check(i, i).is_empty());
    }
}

fn tiered_circuit() -> (ConstraintSystem, tagged::RangeCheckConfig, Witness) {
    let mut cs = ConstraintSystem::new();
    let value = cs.advice_column();
    let num_bits = cs.advice_column();
    let config = tagged::RangeCheckConfig::configure(&mut cs, value, num_bits, 8, 8, 256).unwrap();
    let w = witness_for(&cs, 9);
    (cs, config, w)
}

#[test]
fn test_range_check_3() {
    let (cs, config, mut w) = tiered_circuit();
    // The value one under the claimed bit length zero, then eight under four.
    config.assign(&mut w, Fe::one(), 0, 8).unwrap();
    config.assign(&mut w, Fe::from_u64(8), 4, 256).unwrap();
    config.table.load(&mut w).unwrap();
    // (0, 1) is no row of the table: only the first region is rejected.
    assert_eq!(verify(&cs, &w), vec![Failure::LookupNotSatisfied { lookup: 0, row: 0 }]);
}

#[test]
fn polynomial_range_accepts_below_and_rejects_at_bound() {
    for i in 0..8u64 {
        assert!(poly_check(i).is_empty(), "value {} must pass", i);
    }
    assert!(!poly_check(8).is_empty());
    assert!(!poly_check(100).is_empty());
}

#[test]
fn small_claimed_range_uses_the_gate() {
    let mut cs = ConstraintSystem::new();
    let col = cs.advice_column();
    let config = lookup::RangeCheckConfig::configure(&mut cs, col, 8, 256).unwrap();
    let mut w = witness_for(&cs, 9);
    config.assign(&mut w, Fe::from_u64(9), 4).unwrap();
    config.table.load(&mut w).unwrap();
    assert_eq!(verify(&cs, &w), vec![Failure::ConstraintNotSatisfied { gate: 0, poly: 0, row: 0 }]);
}

#[test]
fn flat_lookup_accepts_every_table_value() {
    let mut cs = ConstraintSystem::new();
    let col = cs.advice_column();
    let config = lookup::RangeCheckConfig::configure(&mut cs, col, 8, 256).unwrap();
    let mut w = witness_for(&cs, 9);
    for v in 0..256u64 {
        config.assign(&mut w, Fe::from_u64(v), 256).unwrap();
    }
    config.table.load(&mut w).unwrap();
    assert!(verify(&cs, &w).is_empty());
}

#[test]
fn flat_lookup_rejects_first_value_outside() {
    assert_eq!(
        flat_check(0, 256),
        vec![Failure::LookupNotSatisfied { lookup: 0, row: 1 }]
    );
}

#[test]
fn tiered_lookup_accepts_exact_bit_length() {
    let (cs, config, mut w) = tiered_circuit();
    config.assign(&mut w, Fe::from_u64(8), 4, 256).unwrap();
    config.table.load(&mut w).unwrap();
    assert!(verify(&cs, &w).is_empty());
}

#[test]
fn tiered_lookup_rejects_understated_bit_length() {
    let (cs, config, mut w) = tiered_circuit();
    config.assign(&mut w, Fe::from_u64(8), 3, 256).unwrap();
    config.table.load(&mut w).unwrap();
    assert_eq!(verify(&cs, &w), vec![Failure::LookupNotSatisfied { lookup: 0, row: 0 }]);
}

#[test]
fn tiered_lookup_rejects_overstated_bit_length() {
    let (cs, config, mut w) = tiered_circuit();
    config.assign(&mut w, Fe::from_u64(8), 5, 256).unwrap();
    config.table.load(&mut w).unwrap();
    assert!(!verify(&cs, &w).is_empty());
}

#[test]
fn tiered_zero_is_tagged_one_bit() {
    let (cs, config, mut w) = tiered_circuit();
    config.assign(&mut w, Fe::zero(), 1, 256).unwrap();
    config.assign(&mut w, Fe::from_u64(255), 8, 256).unwrap();
    config.table.load(&mut w).unwrap();
    assert!(verify(&cs, &w).is_empty());
}

#[test]
fn tiered_table_rows() {
    let (_cs, config, mut w) = tiered_circuit();
    config.table.load(&mut w).unwrap();
    let t = config.table;
    assert!(w.value(t.num_bits, 0).equals(&Fe::one()));
    assert!(w.value(t.value, 0).equals(&Fe::zero()));
    assert!(w.value(t.num_bits, 8).equals(&Fe::from_u64(4)));
    assert!(w.value(t.value, 8).equals(&Fe::from_u64(8)));
    assert!(w.value(t.num_bits, 255).equals(&Fe::from_u64(8)));
    assert!(w.value(t.value, 255).equals(&Fe::from_u64(255)));
    // Rows past the table repeat the first row.
    assert!(w.value(t.num_bits, 300).equals(&Fe::one()));
    assert!(w.value(t.value, 300).equals(&Fe::zero()));
}

#[test]
fn is_zero_output_when_inputs_differ() {
    let (cs, w, out) = run_function(10, 12, 15);
    assert!(out.equals(&Fe::from_u64(2).neg()));
    assert!(verify(&cs, &w).is_empty());
}

#[test]
fn is_zero_output_when_inputs_equal() {
    let (cs, w, out) = run_function(10, 10, 15);
    assert!(out.equals(&Fe::from_u64(15)));
    assert!(verify(&cs, &w).is_empty());
}

#[test]
fn is_zero_gate_rejects_a_wrong_output() {
    let mut cs = ConstraintSystem::new();
    let config = FunctionChip::configure(&mut cs);
    let mut w = witness_for(&cs, 4);
    w.begin_region().unwrap();
    w.enable_selector(config.selector, 0).unwrap();
    w.assign_advice(config.a, 0, Fe::from_u64(10)).unwrap();
    w.assign_advice(config.b, 0, Fe::from_u64(10)).unwrap();
    w.assign_advice(config.c, 0, Fe::from_u64(15)).unwrap();
    w.assign_advice(config.output, 0, Fe::from_u64(0)).unwrap();
    w.end_region().unwrap();
    assert_eq!(verify(&cs, &w), vec![Failure::ConstraintNotSatisfied { gate: 1, poly: 0, row: 0 }]);
}

#[test]
fn assignment_is_deterministic() {
    let (_cs1, w1, _) = run_function(10, 12, 15);
    let (cs2, w2, _) = run_function(10, 12, 15);
    for col in 0..cs2.kinds.len() {
        for row in 0..w1.n_rows() {
            let c = halo2_gadgets_core::expression::Column { index: col, kind: cs2.kinds[col] };
            assert!(w1.value(c, row).equals(&w2.value(c, row)));
        }
    }
}

#[test]
fn loading_a_table_twice_changes_nothing() {
    let mut cs = ConstraintSystem::new();
    let table = lookup::RangeCheckTable::configure(&mut cs, 256);
    let mut once = witness_for(&cs, 9);
    table.load(&mut once).unwrap();
    let mut twice = witness_for(&cs, 9);
    table.load(&mut twice).unwrap();
    table.load(&mut twice).unwrap();
    for row in 0..512usize {
        assert!(once.value(table.value, row).equals(&twice.value(table.value, row)));
    }
    assert!(once.value(table.value, 255).equals(&Fe::from_u64(255)));
    assert!(once.value(table.value, 256).equals(&Fe::zero()));
}
