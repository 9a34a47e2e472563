//! Loan configuration: the two tranches' amounts and rates, the term, and
//! the selected strategy.
//!
//! Principal amounts are given in units of ten thousand and are scaled by
//! the engine; rates are annual percentages.

use vstd::prelude::*;
use crate::decimal::{Dec, dec_wf};

verus! {

/// Which amortization strategy to run.
#[derive(Clone, Copy, Debug, PartialEq, Eq, Structural)]
pub enum RateType {
    /// Equal-installment: a constant total payment per month.
    Interest,
    /// Equal-principal: a constant principal payment per month.
    Principal,
}

/// The two tranches' principal amounts (in ten thousands) and the term.
#[derive(Clone, Copy, Debug)]
pub struct Loan {
    pub business: Dec,
    pub fund: Dec,
    pub time: u32,
}

/// The two tranches' annual rates (percent) and the selected strategy.
#[derive(Clone, Copy, Debug)]
pub struct Rate {
    pub business: Dec,
    pub fund: Dec,
    pub ty: RateType,
}

/// The whole loan configuration.
#[derive(Clone, Copy, Debug)]
pub struct Config {
    pub loan: Loan,
    pub rate: Rate,
}

/// The configuration invariant: all decimal fields are well-formed, and
/// principals and rates are nonnegative. (A decimal is nonnegative
/// exactly when its mantissa is.)
pub open spec fn config_wf(cfg: Config) -> bool {
    &&& dec_wf(cfg.loan.fund)
    &&& dec_wf(cfg.loan.business)
    &&& dec_wf(cfg.rate.fund)
    &&& dec_wf(cfg.rate.business)
    &&& cfg.loan.fund.m >= 0
    &&& cfg.loan.business.m >= 0
    &&& cfg.rate.fund.m >= 0
    &&& cfg.rate.business.m >= 0
}

} // verus!
