//! A small arithmetic-circuit constraint engine: columns, selectors, gates and
//! lookup arguments, region-based witness assignment, fixed tables, and a
//! satisfiability checker, together with gadgets built on it.
pub mod field;
pub mod expression;
pub mod witness;
pub mod constraint_system;
pub mod prover;
pub mod range_check;
pub mod is_zero;
pub mod function;
