//! The amortization engine's shared pieces: the month-by-month output
//! types, the common setup (scaling the principals, deriving the monthly
//! rates) and the strategy interface.
//!
//! Every decimal operation the engine performs is pinned, in the
//! contracts, to the corresponding named operation of `crate::decimal`;
//! `None` stands for an operation the decimal type cannot carry out
//! (overflow, or a zero divisor), which the engine surfaces as
//! `EngineError::Overflow` rather than panicking.

use vstd::prelude::*;
use crate::config::Config;
use crate::decimal::{Dec, dec_wf, dv, add_of, sub_of, mul_of, div_of, powu_of, dec_add};

verus! {

/// Why the engine refused to produce a schedule.
#[derive(Clone, Copy, Debug, PartialEq, Eq, Structural)]
pub enum EngineError {
    /// The configuration asks for a schedule of zero months.
    ConfigError,
    /// A decimal operation overflowed, or divided by zero.
    Overflow,
}

/// One month of the schedule: the principal and interest paid that month
/// for each tranche. Derived totals are recomputed on access, never stored.
#[derive(Clone, Copy, Debug)]
pub struct MonthlyBreakdown {
    pub month: u32,
    pub fund_principal: Dec,
    pub fund_interest: Dec,
    pub business_principal: Dec,
    pub business_interest: Dec,
}

/// A whole schedule: one row per month, the aggregate interest per tranche
/// and combined, and the months whose override lookup found no entry.
#[derive(Clone, Debug)]
pub struct AmortizationResult {
    pub rows: Vec<MonthlyBreakdown>,
    pub fund_total_interest: Dec,
    pub business_total_interest: Dec,
    pub total_interest: Dec,
    pub warnings: Vec<u64>,
}

/// All four decimals of a row are well-formed.
pub open spec fn row_wf(row: MonthlyBreakdown) -> bool {
    &&& dec_wf(row.fund_principal)
    &&& dec_wf(row.fund_interest)
    &&& dec_wf(row.business_principal)
    &&& dec_wf(row.business_interest)
}

/// A well-formed result: well-formed decimals throughout, and rows
/// numbered chronologically from month one.
pub open spec fn result_wf(res: AmortizationResult) -> bool {
    &&& forall|i: int| 0 <= i < res.rows@.len() ==> row_wf(#[trigger] res.rows@[i])
    &&& forall|i: int| 0 <= i < res.rows@.len() ==> (#[trigger] res.rows@[i]).month == i + 1
    &&& dec_wf(res.fund_total_interest)
    &&& dec_wf(res.business_total_interest)
    &&& dec_wf(res.total_interest)
}

/// Addition lifted over unrepresentable operands.
pub open spec fn o_add(a: Option<(int, int)>, b: Option<(int, int)>) -> Option<(int, int)> {
    if a is Some && b is Some {
        add_of(a->Some_0, b->Some_0)
    } else {
        Option::None
    }
}

/// Subtraction lifted over unrepresentable operands.
pub open spec fn o_sub(a: Option<(int, int)>, b: Option<(int, int)>) -> Option<(int, int)> {
    if a is Some && b is Some {
        sub_of(a->Some_0, b->Some_0)
    } else {
        Option::None
    }
}

/// Multiplication lifted over unrepresentable operands.
pub open spec fn o_mul(a: Option<(int, int)>, b: Option<(int, int)>) -> Option<(int, int)> {
    if a is Some && b is Some {
        mul_of(a->Some_0, b->Some_0)
    } else {
        Option::None
    }
}

/// Division lifted over unrepresentable operands.
pub open spec fn o_div(a: Option<(int, int)>, b: Option<(int, int)>) -> Option<(int, int)> {
    if a is Some && b is Some {
        div_of(a->Some_0, b->Some_0)
    } else {
        Option::None
    }
}

/// Integer power lifted over an unrepresentable base.
pub open spec fn o_powu(a: Option<(int, int)>, e: int) -> Option<(int, int)> {
    if a is Some {
        powu_of(a->Some_0, e)
    } else {
        Option::None
    }
}

/// The fund principal scaled from ten thousands to currency units.
pub open spec fn scaled_fund(cfg: Config) -> Option<(int, int)> {
    mul_of(dv(cfg.loan.fund), (10000, 0))
}

/// The business principal scaled from ten thousands to currency units.
pub open spec fn scaled_business(cfg: Config) -> Option<(int, int)> {
    mul_of(dv(cfg.loan.business), (10000, 0))
}

/// A tranche's monthly rate: the annual percentage over 100, over 12.
pub open spec fn monthly_rate(annual: Dec) -> Option<(int, int)> {
    o_div(o_div(Option::Some(dv(annual)), Option::Some((100, 0))), Option::Some((12, 0)))
}

/// A row's combined total payment over the named decimal operations.
pub open spec fn combined_total_of(row: MonthlyBreakdown) -> Option<(int, int)> {
    o_add(
        o_add(
            o_add(
                Option::Some(dv(row.fund_principal)),
                Option::Some(dv(row.business_principal)),
            ),
            Option::Some(dv(row.fund_interest)),
        ),
        Option::Some(dv(row.business_interest)),
    )
}

/// A strategy: one operation, producing the whole schedule from the
/// inputs the implementing struct holds, with no other effect.
pub trait Cal {
    /// The number of months the schedule will have.
    spec fn spec_months(&self) -> nat;

    /// The inputs hold well-formed decimals (and a well-formed table).
    spec fn inputs_wf(&self) -> bool;

    /// Produce the schedule, or the error that prevents it.
    fn process(&self) -> (r: Result<AmortizationResult, EngineError>)
        requires
            self.inputs_wf(),
        ensures
            r matches Ok(res) ==> result_wf(res) && res.rows@.len() == self.spec_months(),
    ;
}

/// Run a strategy. The schedule is the strategy's alone; presentation is
/// the caller's business.
pub fn mortgage_process<T: Cal>(ins: T) -> (r: Result<AmortizationResult, EngineError>)
    requires
        ins.inputs_wf(),
    ensures
        r matches Ok(res) ==> result_wf(res) && res.rows@.len() == ins.spec_months(),
{
    ins.process()
}

impl MonthlyBreakdown {
    /// The month's total payment for the fund tranche.
    pub fn fund_total(&self) -> (r: Option<Dec>)
        requires
            row_wf(*self),
        ensures
            r is Some <==> add_of(dv(self.fund_principal), dv(self.fund_interest)) is Some,
            r matches Some(d) ==> dec_wf(d) && Option::Some(dv(d)) == add_of(
                dv(self.fund_principal),
                dv(self.fund_interest),
            ),
    {
        dec_add(self.fund_principal, self.fund_interest)
    }

    /// The month's total payment for the business tranche.
    pub fn business_total(&self) -> (r: Option<Dec>)
        requires
            row_wf(*self),
        ensures
            r is Some <==> add_of(dv(self.business_principal), dv(self.business_interest)) is Some,
            r matches Some(d) ==> dec_wf(d) && Option::Some(dv(d)) == add_of(
                dv(self.business_principal),
                dv(self.business_interest),
            ),
    {
        dec_add(self.business_principal, self.business_interest)
    }

    /// The month's combined principal across both tranches.
    pub fn combined_principal(&self) -> (r: Option<Dec>)
        requires
            row_wf(*self),
        ensures
            r is Some <==> add_of(dv(self.fund_principal), dv(self.business_principal)) is Some,
            r matches Some(d) ==> dec_wf(d) && Option::Some(dv(d)) == add_of(
                dv(self.fund_principal),
                dv(self.business_principal),
            ),
    {
        dec_add(self.fund_principal, self.business_principal)
    }

    /// The month's combined total payment across both tranches, summed
    /// as principal plus principal plus interest plus interest.
    pub fn combined_total(&self) -> (r: Option<Dec>)
        requires
            row_wf(*self),
        ensures
            r is Some <==> combined_total_of(*self) is Some,
            r matches Some(d) ==> dec_wf(d) && Option::Some(dv(d)) == combined_total_of(*self),
    {
        let s1 = match dec_add(self.fund_principal, self.business_principal) {
            Option::Some(v) => v,
            Option::None => {
                return Option::None;
            },
        };
        let s2 = match dec_add(s1, self.fund_interest) {
            Option::Some(v) => v,
            Option::None => {
                return Option::None;
            },
        };
        dec_add(s2, self.business_interest)
    }

    /// The month's combined interest across both tranches.
    pub fn combined_interest(&self) -> (r: Option<Dec>)
        requires
            row_wf(*self),
        ensures
            r is Some <==> add_of(dv(self.fund_interest), dv(self.business_interest)) is Some,
            r matches Some(d) ==> dec_wf(d) && Option::Some(dv(d)) == add_of(
                dv(self.fund_interest),
                dv(self.business_interest),
            ),
    {
        dec_add(self.fund_interest, self.business_interest)
    }
}

} // verus!
