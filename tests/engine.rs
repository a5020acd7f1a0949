use halo2_gadgets_core::constraint_system::{ConfigError, ConstraintSystem};
use halo2_gadgets_core::expression::{Column, ColumnKind, Expression};
use halo2_gadgets_core::field::Fe;
use halo2_gadgets_core::prover::{verify, Failure};
use halo2_gadgets_core::range_check::tagged;
use halo2_gadgets_core::witness::{AssignError, Witness};

#[test]
fn field_arithmetic_exact_values() {
    let a = Fe::from_u64(10);
    let b = Fe::from_u64(12);
    assert!(a.add(&b).equals(&Fe::from_u64(22)));
    assert!(b.sub(&a).equals(&Fe::from_u64(2)));
    assert!(a.mul(&b).equals(&Fe::from_u64(120)));
    assert!(a.sub(&b).add(&Fe::from_u64(2)).is_zero());
    assert!(a.neg().add(&a).is_zero());
    assert!(!a.equals(&b));
    assert!(a.invert_or_zero().mul(&a).equals(&Fe::one()));
    assert!(Fe::zero().invert_or_zero().is_zero());
    assert!(Fe::from_u64(2).invert_or_zero().mul(&Fe::from_u64(4)).equals(&Fe::from_u64(2)));
}

#[test]
fn expression_evaluation_with_rotation() {
    let mut cs = ConstraintSystem::new();
    let col = cs.advice_column();
    let s = cs.selector();
    let mut w = Witness::new(&cs.kinds, cs.selectors.len(), 4);
    w.begin_region().unwrap();
    w.enable_selector(s, 1).unwrap();
    w.assign_advice(col, 0, Fe::from_u64(3)).unwrap();
    w.assign_advice(col, 1, Fe::from_u64(5)).unwrap();
    w.end_region().unwrap();
    // s * (cur * 2 - prev) at row 1 is 10 - 3 = 7.
    let e = Expression::selector(s).times(
        Expression::Scaled(Box::new(Expression::query(col, 0)), Fe::from_u64(2))
            .minus(Expression::query(col, -1)),
    );
    assert!(w.evaluate(&e, 1).unwrap().equals(&Fe::from_u64(7)));
    // At row 0 the selector is off.
    assert!(w.evaluate(&Expression::selector(s), 0).unwrap().is_zero());
    // A rotation past the first row cannot be evaluated.
    assert!(w.evaluate(&Expression::query(col, -1), 0).is_none());
    assert!(w.evaluate(&Expression::query(col, 4), 0).is_none());
}

#[test]
fn checker_reports_every_violation() {
    let mut cs = ConstraintSystem::new();
    let col = cs.advice_column();
    let s = cs.selector();
    let gate = vec![Expression::selector(s).times(Expression::query(col, 0))];
    cs.create_gate(String::from("value is zero"), s, gate).unwrap();
    let mut w = Witness::new(&cs.kinds, cs.selectors.len(), 4);
    for v in [1u64, 0, 2] {
        w.begin_region().unwrap();
        w.enable_selector(s, 0).unwrap();
        w.assign_advice(col, 0, Fe::from_u64(v)).unwrap();
        w.end_region().unwrap();
    }
    assert_eq!(
        verify(&cs, &w),
        vec![
            Failure::ConstraintNotSatisfied { gate: 0, poly: 0, row: 0 },
            Failure::ConstraintNotSatisfied { gate: 0, poly: 0, row: 2 },
        ]
    );
}

#[test]
fn regions_are_placed_one_after_another() {
    let mut cs = ConstraintSystem::new();
    let col = cs.advice_column();
    let mut w = Witness::new(&cs.kinds, cs.selectors.len(), 8);
    w.begin_region().unwrap();
    w.assign_advice(col, 2, Fe::one()).unwrap();
    w.end_region().unwrap();
    assert_eq!(w.next_row(), 3);
    w.begin_region().unwrap();
    let cell = w.assign_advice(col, 0, Fe::from_u64(4)).unwrap();
    assert_eq!(cell.row, 3);
    w.end_region().unwrap();
}

#[test]
fn assignment_errors() {
    let mut cs = ConstraintSystem::new();
    let col = cs.advice_column();
    let fixed = cs.lookup_table_column();
    let s = cs.selector();
    let mut w = Witness::new(&cs.kinds, cs.selectors.len(), 4);
    assert_eq!(w.assign_advice(col, 0, Fe::one()).unwrap_err(), AssignError::NoOpenRegion);
    assert_eq!(w.end_region(), Err(AssignError::NoOpenRegion));
    w.begin_region().unwrap();
    assert_eq!(w.begin_region(), Err(AssignError::RegionAlreadyOpen));
    w.assign_advice(col, 0, Fe::one()).unwrap();
    assert_eq!(w.assign_advice(col, 0, Fe::one()).unwrap_err(), AssignError::AlreadyAssigned);
    assert_eq!(w.assign_advice(fixed, 1, Fe::one()).unwrap_err(), AssignError::WrongColumnKind);
    let missing = Column { index: 9, kind: ColumnKind::Advice };
    assert_eq!(w.assign_advice(missing, 1, Fe::one()).unwrap_err(), AssignError::ColumnOutOfRange);
    assert_eq!(w.assign_advice(col, 4, Fe::one()).unwrap_err(), AssignError::RowOutOfRange);
    let other = halo2_gadgets_core::expression::Selector { index: 3, simple: true };
    assert_eq!(w.enable_selector(other, 0), Err(AssignError::SelectorOutOfRange));
    assert_eq!(w.enable_selector(s, 9), Err(AssignError::RowOutOfRange));
    w.end_region().unwrap();
    assert_eq!(w.assign_table(fixed, &Vec::new()), Err(AssignError::EmptyTable));
    let too_many: Vec<Fe> = (0..5u64).map(Fe::from_u64).collect();
    assert_eq!(w.assign_table(fixed, &too_many), Err(AssignError::TableTooLarge));
    assert_eq!(w.assign_table(col, &vec![Fe::one()]), Err(AssignError::WrongColumnKind));
}

#[test]
fn failed_row_assignment_leaves_the_witness_unchanged() {
    let mut cs = ConstraintSystem::new();
    let col = cs.advice_column();
    let s = cs.selector();
    let mut w = Witness::new(&cs.kinds, cs.selectors.len(), 4);
    let cells = vec![(col, Fe::one()), (col, Fe::from_u64(2))];
    assert_eq!(w.assign_row(s, &cells), Err(AssignError::AlreadyAssigned));
    assert_eq!(w.next_row(), 0);
    assert!(!w.region_open());
    assert!(w.is_cell_free(col, 0));
}

#[test]
fn configuration_errors() {
    let mut cs = ConstraintSystem::new();
    let col = cs.advice_column();
    let table = cs.lookup_table_column();
    let simple = cs.selector();
    let complex = cs.complex_selector();
    let input = Expression::selector(simple).times(Expression::query(col, 0));
    assert_eq!(
        cs.lookup(String::from("simple"), vec![(input, table)]),
        Err(ConfigError::SimpleSelectorInLookup)
    );
    let input = Expression::selector(complex).times(Expression::query(col, 0));
    assert_eq!(
        cs.lookup(String::from("not a table"), vec![(input, col)]),
        Err(ConfigError::TableColumnNotFixed)
    );
    let unknown = Column { index: 7, kind: ColumnKind::Advice };
    assert_eq!(
        cs.create_gate(String::from("unknown"), simple, vec![Expression::query(unknown, 0)]),
        Err(ConfigError::UnknownColumnOrSelector)
    );
    let missing = halo2_gadgets_core::expression::Selector { index: 9, simple: true };
    assert_eq!(
        cs.create_gate(String::from("unknown selector"), missing, vec![Expression::query(col, 0)]),
        Err(ConfigError::UnknownColumnOrSelector)
    );
    let input = Expression::selector(complex).times(Expression::query(col, 0));
    assert_eq!(cs.lookup(String::from("ok"), vec![(input, table)]), Ok(()));
    assert_eq!(cs.lookups.len(), 1);
    assert_eq!(cs.gates.len(), 0);
    assert!(matches!(
        tagged::RangeCheckTable::configure(&mut cs, 8, 255),
        Err(ConfigError::TableShapeMismatch)
    ));
    assert!(tagged::RangeCheckTable::configure(&mut cs, 8, 256).is_ok());
}

#[test]
fn gate_is_checked_only_where_its_selector_is_on() {
    let mut cs = ConstraintSystem::new();
    let col = cs.advice_column();
    let s = cs.selector();
    // s * (cur - prev): the previous row does not exist at row 0.
    let poly = Expression::selector(s).times(Expression::query(col, 0).minus(Expression::query(col, -1)));
    cs.create_gate(String::from("repeat"), s, vec![poly]).unwrap();
    let mut w = Witness::new(&cs.kinds, cs.selectors.len(), 4);
    w.begin_region().unwrap();
    w.assign_advice(col, 0, Fe::from_u64(6)).unwrap();
    w.enable_selector(s, 1).unwrap();
    w.assign_advice(col, 1, Fe::from_u64(6)).unwrap();
    w.enable_selector(s, 2).unwrap();
    w.assign_advice(col, 2, Fe::from_u64(7)).unwrap();
    w.end_region().unwrap();
    assert_eq!(verify(&cs, &w), vec![Failure::ConstraintNotSatisfied { gate: 0, poly: 0, row: 2 }]);
}

#[test]
fn gate_with_rotation_off_the_grid_fails_where_selected() {
    let mut cs = ConstraintSystem::new();
    let col = cs.advice_column();
    let s = cs.selector();
    let poly = Expression::selector(s).times(Expression::query(col, 0).minus(Expression::query(col, -1)));
    cs.create_gate(String::from("repeat"), s, vec![poly]).unwrap();
    let mut w = Witness::new(&cs.kinds, cs.selectors.len(), 2);
    w.begin_region().unwrap();
    w.enable_selector(s, 0).unwrap();
    w.end_region().unwrap();
    assert_eq!(verify(&cs, &w), vec![Failure::ConstraintNotSatisfied { gate: 0, poly: 0, row: 0 }]);
}

#[test]
fn gadget_assignment_names_its_error() {
    let mut cs = ConstraintSystem::new();
    let value = cs.advice_column();
    let config = halo2_gadgets_core::range_check::RangeCheckConfig::configure(&mut cs, value, 8).unwrap();
    let mut w = Witness::new(&cs.kinds, cs.selectors.len(), 1);
    w.begin_region().unwrap();
    assert_eq!(config.assign(&mut w, Fe::one()).unwrap_err(), AssignError::RegionAlreadyOpen);
    w.end_region().unwrap();
    config.assign(&mut w, Fe::one()).unwrap();
    assert_eq!(config.assign(&mut w, Fe::one()).unwrap_err(), AssignError::RowOutOfRange);
}
