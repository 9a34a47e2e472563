//! Mortgage amortization over two loan tranches (a housing-fund loan and
//! a commercial loan), under two strategies: equal-installment (constant
//! total payment per month) and equal-principal (constant principal per
//! month, declining interest), with a per-month extra-repayment override
//! table.
//!
//! All money arithmetic is exact base-10 fixed point, carried out by
//! `rust_decimal` behind the trusted wrappers of [`decimal`]; every
//! schedule the engine produces is pinned, row by row, to a recurrence
//! over those operations, and the arithmetic laws of the two strategies
//! are proved in exact integer arithmetic in [`laws`].

use vstd::prelude::*;

pub mod cli;
pub mod config;
pub mod decimal;
pub mod engine;
pub mod equal_installment;
pub mod equal_principal;
pub mod laws;
pub mod overrides;

verus! {

} // verus!
