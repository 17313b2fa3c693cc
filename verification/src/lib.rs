//! Expression evaluator for a small query language: a value model with
//! three-valued logic, a partial evaluator that folds constants against a
//! symbolic context, an operator optimizer that rewrites generic operator
//! applications into specialized nodes, and a row evaluator that executes
//! an optimized tree against a per-row context.

pub mod error;
pub mod eval;
pub mod expr;
pub mod laws;
pub mod op;
pub mod sem;
pub mod value;
