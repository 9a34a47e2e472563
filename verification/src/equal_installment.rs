//! The equal-installment strategy: a constant total payment per tranche
//! every month, computed in closed form from the monthly rate, with the
//! interest share declining and the principal share growing over time.
//!
//! Every row and total is pinned to the named decimal operations. A
//! tranche with a zero annual rate is special-cased, as the closed form
//! would divide by zero: its payment is the principal over the term and
//! its interest is zero every month. Repayment overrides do not apply to
//! this strategy; no override is consulted and no warning is raised.

use vstd::prelude::*;
use crate::config::{Config, config_wf};
use crate::decimal::{Dec, dec_wf, dv, dec_add, dec_sub, dec_mul, dec_div, dec_powu, dec_from_u32};
use crate::engine::{
    AmortizationResult, Cal, EngineError, MonthlyBreakdown, monthly_rate, o_add, o_div, o_mul,
    o_powu, o_sub, result_wf, row_wf, scaled_business, scaled_fund,
};
use crate::overrides::Repays;

verus! {

/// A tranche's constant monthly payment: `P * r * (1+r)^n / ((1+r)^n - 1)`
/// for principal `p`, monthly rate `mr` and term `n`; `P / n` when the
/// annual rate is zero.
pub open spec fn ei_payment(p: Option<(int, int)>, annual: Dec, mr: Option<(int, int)>, n: nat) -> Option<
    (int, int),
> {
    if dv(annual).0 == 0 {
        o_div(p, Option::Some((n as int, 0)))
    } else {
        let a1 = o_add(mr, Option::Some((1, 0)));
        let pw = o_powu(a1, n as int);
        o_div(o_mul(p, o_mul(mr, pw)), o_sub(pw, Option::Some((1, 0))))
    }
}

/// A tranche's interest in month `i` (0-based):
/// `(P*r - payment) * (1+r)^i + payment`; zero at a zero annual rate.
pub open spec fn ei_interest(
    p: Option<(int, int)>,
    annual: Dec,
    mr: Option<(int, int)>,
    n: nat,
    i: nat,
) -> Option<(int, int)> {
    let pay = ei_payment(p, annual, mr, n);
    if pay is None {
        Option::None
    } else if dv(annual).0 == 0 {
        Option::Some((0, 0))
    } else {
        let a1 = o_add(mr, Option::Some((1, 0)));
        o_add(o_mul(o_sub(o_mul(p, mr), pay), o_powu(a1, i as int)), pay)
    }
}

/// A tranche's principal in month `i`: the payment less the interest;
/// the whole payment at a zero annual rate.
pub open spec fn ei_principal(
    p: Option<(int, int)>,
    annual: Dec,
    mr: Option<(int, int)>,
    n: nat,
    i: nat,
) -> Option<(int, int)> {
    let pay = ei_payment(p, annual, mr, n);
    if pay is None {
        Option::None
    } else if dv(annual).0 == 0 {
        pay
    } else {
        o_sub(pay, ei_interest(p, annual, mr, n, i))
    }
}

/// The fund interest of month `i`.
pub open spec fn ei_f_interest(cfg: Config, n: nat, i: nat) -> Option<(int, int)> {
    ei_interest(scaled_fund(cfg), cfg.rate.fund, monthly_rate(cfg.rate.fund), n, i)
}

/// The business interest of month `i`.
pub open spec fn ei_b_interest(cfg: Config, n: nat, i: nat) -> Option<(int, int)> {
    ei_interest(scaled_business(cfg), cfg.rate.business, monthly_rate(cfg.rate.business), n, i)
}

/// The fund principal of month `i`.
pub open spec fn ei_f_principal(cfg: Config, n: nat, i: nat) -> Option<(int, int)> {
    ei_principal(scaled_fund(cfg), cfg.rate.fund, monthly_rate(cfg.rate.fund), n, i)
}

/// The business principal of month `i`.
pub open spec fn ei_b_principal(cfg: Config, n: nat, i: nat) -> Option<(int, int)> {
    ei_principal(scaled_business(cfg), cfg.rate.business, monthly_rate(cfg.rate.business), n, i)
}

/// The combined interest accumulated over the first `i` months.
pub open spec fn ei_tot(cfg: Config, n: nat, i: nat) -> Option<(int, int)>
    decreases i,
{
    if i == 0 {
        Option::Some((0, 0))
    } else {
        o_add(
            o_add(ei_tot(cfg, n, (i - 1) as nat), ei_f_interest(cfg, n, (i - 1) as nat)),
            ei_b_interest(cfg, n, (i - 1) as nat),
        )
    }
}

/// The fund interest accumulated over the first `i` months.
pub open spec fn ei_f_tot(cfg: Config, n: nat, i: nat) -> Option<(int, int)>
    decreases i,
{
    if i == 0 {
        Option::Some((0, 0))
    } else {
        o_add(ei_f_tot(cfg, n, (i - 1) as nat), ei_f_interest(cfg, n, (i - 1) as nat))
    }
}

/// The business interest accumulated over the first `i` months.
pub open spec fn ei_b_tot(cfg: Config, n: nat, i: nat) -> Option<(int, int)>
    decreases i,
{
    if i == 0 {
        Option::Some((0, 0))
    } else {
        o_add(ei_b_tot(cfg, n, (i - 1) as nat), ei_b_interest(cfg, n, (i - 1) as nat))
    }
}

/// Every decimal operation of month `i` is representable.
pub open spec fn ei_month_ok(cfg: Config, n: nat, i: nat) -> bool {
    &&& ei_f_interest(cfg, n, i) is Some
    &&& ei_b_interest(cfg, n, i) is Some
    &&& ei_f_principal(cfg, n, i) is Some
    &&& ei_b_principal(cfg, n, i) is Some
}

/// The whole schedule is representable.
pub open spec fn ei_ok(cfg: Config, n: nat) -> bool {
    &&& forall|i: nat| i < n ==> ei_month_ok(cfg, n, i)
    &&& ei_tot(cfg, n, n) is Some
    &&& ei_f_tot(cfg, n, n) is Some
    &&& ei_b_tot(cfg, n, n) is Some
}

/// Row `i` (0-based) carries month `i + 1` and the closed-form shares.
pub open spec fn ei_row_matches(cfg: Config, n: nat, i: nat, row: MonthlyBreakdown) -> bool {
    &&& row.month == i + 1
    &&& Option::Some(dv(row.fund_principal)) == ei_f_principal(cfg, n, i)
    &&& Option::Some(dv(row.fund_interest)) == ei_f_interest(cfg, n, i)
    &&& Option::Some(dv(row.business_principal)) == ei_b_principal(cfg, n, i)
    &&& Option::Some(dv(row.business_interest)) == ei_b_interest(cfg, n, i)
}

/// Once an accumulator fails it stays failed.
proof fn lemma_ei_tot_none_propagates(cfg: Config, n: nat, i: nat, j: nat)
    requires
        i <= j,
        ei_tot(cfg, n, i) is None,
    ensures
        ei_tot(cfg, n, j) is None,
    decreases j - i,
{
    if i < j {
        lemma_ei_tot_none_propagates(cfg, n, i, (j - 1) as nat);
    }
}

/// Once the fund accumulator fails it stays failed.
proof fn lemma_ei_f_tot_none_propagates(cfg: Config, n: nat, i: nat, j: nat)
    requires
        i <= j,
        ei_f_tot(cfg, n, i) is None,
    ensures
        ei_f_tot(cfg, n, j) is None,
    decreases j - i,
{
    if i < j {
        lemma_ei_f_tot_none_propagates(cfg, n, i, (j - 1) as nat);
    }
}

/// Once the business accumulator fails it stays failed.
proof fn lemma_ei_b_tot_none_propagates(cfg: Config, n: nat, i: nat, j: nat)
    requires
        i <= j,
        ei_b_tot(cfg, n, i) is None,
    ensures
        ei_b_tot(cfg, n, j) is None,
    decreases j - i,
{
    if i < j {
        lemma_ei_b_tot_none_propagates(cfg, n, i, (j - 1) as nat);
    }
}

/// The equal-installment strategy over a configuration. The override
/// schedule is carried for interface parity but never consulted: its
/// interaction with this strategy is an unsupported extension point.
pub struct Interest<'a> {
    pub config: &'a Config,
    pub policy: &'a Repays,
}

/// One tranche's per-month ingredients, computed before the loop.
struct TrancheCtx {
    /// The scaled principal.
    p: Dec,
    /// The monthly rate (meaningless at a zero annual rate).
    mr: Dec,
    /// The constant monthly payment.
    pay: Dec,
    /// `P*r - payment`, the coefficient of the interest closed form.
    coeff: Dec,
    /// `1 + r`, the base of the power.
    a1: Dec,
    /// Whether the annual rate is zero.
    zero_rate: bool,
}

/// The context a tranche's months are computed from matches the spec
/// pieces for principal `p`, annual rate `annual`, monthly rate `mr` and
/// term `n`.
spec fn tranche_matches(
    c: TrancheCtx,
    p: Option<(int, int)>,
    annual: Dec,
    mr: Option<(int, int)>,
    n: nat,
) -> bool {
    &&& dec_wf(c.p) && dec_wf(c.mr) && dec_wf(c.pay) && dec_wf(c.coeff) && dec_wf(c.a1)
    &&& Option::Some(dv(c.p)) == p
    &&& Option::Some(dv(c.pay)) == ei_payment(p, annual, mr, n)
    &&& c.zero_rate == (dv(annual).0 == 0)
    &&& !c.zero_rate ==> Option::Some(dv(c.mr)) == mr
    &&& !c.zero_rate ==> Option::Some(dv(c.coeff)) == o_sub(
        o_mul(p, mr),
        ei_payment(p, annual, mr, n),
    )
    &&& !c.zero_rate ==> Option::Some(dv(c.a1)) == o_add(mr, Option::Some((1, 0)))
}

/// Scale a tranche's principal, derive its monthly rate and its payment;
/// `None` exactly when the spec pieces of month zero are unrepresentable.
fn tranche_setup(amount: Dec, annual: Dec, months: u32) -> (r: Option<TrancheCtx>)
    requires
        dec_wf(amount),
        dec_wf(annual),
        months >= 1,
    ensures
        ({
            let p = crate::decimal::mul_of(dv(amount), (10000, 0));
            let mr = monthly_rate(annual);
            match r {
                Option::Some(c) => tranche_matches(c, p, annual, mr, months as nat),
                Option::None => ei_interest(p, annual, mr, months as nat, 0) is None || ei_principal(
                    p,
                    annual,
                    mr,
                    months as nat,
                    0,
                ) is None,
            }
        }),
{
    let ten_thousand = Dec { m: 10000, s: 0 };
    let hundred = Dec { m: 100, s: 0 };
    let twelve = Dec { m: 12, s: 0 };
    let one = Dec { m: 1, s: 0 };
    let zero = Dec { m: 0, s: 0 };
    let p = match dec_mul(amount, ten_thousand) {
        Option::Some(v) => v,
        Option::None => {
            return Option::None;
        },
    };
    if amount_rate_zero(annual) {
        let months_dec = dec_from_u32(months);
        let pay = match dec_div(p, months_dec) {
            Option::Some(v) => v,
            Option::None => {
                return Option::None;
            },
        };
        Option::Some(TrancheCtx { p, mr: zero, pay, coeff: zero, a1: zero, zero_rate: true })
    } else {
        let mr1 = match dec_div(annual, hundred) {
            Option::Some(v) => v,
            Option::None => {
                return Option::None;
            },
        };
        let mr = match dec_div(mr1, twelve) {
            Option::Some(v) => v,
            Option::None => {
                return Option::None;
            },
        };
        let a1 = match dec_add(mr, one) {
            Option::Some(v) => v,
            Option::None => {
                return Option::None;
            },
        };
        let pw = match dec_powu(a1, months as u64) {
            Option::Some(v) => v,
            Option::None => {
                return Option::None;
            },
        };
        let num1 = match dec_mul(mr, pw) {
            Option::Some(v) => v,
            Option::None => {
                return Option::None;
            },
        };
        let num = match dec_mul(p, num1) {
            Option::Some(v) => v,
            Option::None => {
                return Option::None;
            },
        };
        let den = match dec_sub(pw, one) {
            Option::Some(v) => v,
            Option::None => {
                return Option::None;
            },
        };
        let pay = match dec_div(num, den) {
            Option::Some(v) => v,
            Option::None => {
                return Option::None;
            },
        };
        let pr = match dec_mul(p, mr) {
            Option::Some(v) => v,
            Option::None => {
                return Option::None;
            },
        };
        let coeff = match dec_sub(pr, pay) {
            Option::Some(v) => v,
            Option::None => {
                return Option::None;
            },
        };
        Option::Some(TrancheCtx { p, mr, pay, coeff, a1, zero_rate: false })
    }
}

/// Whether a rate's mantissa is zero, which is exactly a zero value.
fn amount_rate_zero(annual: Dec) -> (r: bool)
    ensures
        r == (dv(annual).0 == 0),
{
    annual.m == 0
}

/// The interest and principal of month `i` for one tranche, from its
/// precomputed context; `None` exactly when the month's spec pieces are
/// unrepresentable.
fn tranche_month(
    c: &TrancheCtx,
    i: u32,
    Ghost(p): Ghost<Option<(int, int)>>,
    Ghost(annual): Ghost<Dec>,
    Ghost(mr): Ghost<Option<(int, int)>>,
    Ghost(n): Ghost<nat>,
) -> (r: Option<(Dec, Dec)>)
    requires
        tranche_matches(*c, p, annual, mr, n),
    ensures
        match r {
            Option::Some(v) => {
                &&& dec_wf(v.0) && dec_wf(v.1)
                &&& Option::Some(dv(v.0)) == ei_interest(p, annual, mr, n, i as nat)
                &&& Option::Some(dv(v.1)) == ei_principal(p, annual, mr, n, i as nat)
            },
            Option::None => ei_interest(p, annual, mr, n, i as nat) is None || ei_principal(
                p,
                annual,
                mr,
                n,
                i as nat,
            ) is None,
        },
{
    if c.zero_rate {
        Option::Some((Dec { m: 0, s: 0 }, c.pay))
    } else {
        let pw = match dec_powu(c.a1, i as u64) {
            Option::Some(v) => v,
            Option::None => {
                return Option::None;
            },
        };
        let q = match dec_mul(c.coeff, pw) {
            Option::Some(v) => v,
            Option::None => {
                return Option::None;
            },
        };
        let intr = match dec_add(q, c.pay) {
            Option::Some(v) => v,
            Option::None => {
                return Option::None;
            },
        };
        let pr = match dec_sub(c.pay, intr) {
            Option::Some(v) => v,
            Option::None => {
                return Option::None;
            },
        };
        Option::Some((intr, pr))
    }
}

impl<'a> Cal for Interest<'a> {
    open spec fn spec_months(&self) -> nat {
        self.config.loan.time as nat
    }

    open spec fn inputs_wf(&self) -> bool {
        config_wf(*self.config)
    }

    /// Produce the whole equal-installment schedule.
    ///
    /// On success every row and the aggregate interests are exactly the
    /// closed-form values over the named decimal operations, and there
    /// are no warnings; `ConfigError` comes on a zero-month term and
    /// `Overflow` exactly when some operation is unrepresentable.
    fn process(&self) -> (r: Result<AmortizationResult, EngineError>)
        ensures
            ({
                let cfg = *self.config;
                let n = cfg.loan.time as nat;
                match r {
                    Result::Ok(res) => {
                        &&& n >= 1
                        &&& ei_ok(cfg, n)
                        &&& result_wf(res)
                        &&& res.rows@.len() == n
                        &&& forall|k: int|
                            0 <= k < n ==> ei_row_matches(cfg, n, k as nat, #[trigger] res.rows@[k])
                        &&& Option::Some(dv(res.total_interest)) == ei_tot(cfg, n, n)
                        &&& Option::Some(dv(res.fund_total_interest)) == ei_f_tot(cfg, n, n)
                        &&& Option::Some(dv(res.business_total_interest)) == ei_b_tot(cfg, n, n)
                        &&& res.warnings@ == Seq::<u64>::empty()
                    },
                    Result::Err(e) => (e == EngineError::ConfigError && n == 0) || (
                    e == EngineError::Overflow && n >= 1 && !ei_ok(cfg, n)),
                }
            }),
    {
        let cfg: Config = *self.config;
        let months: u32 = cfg.loan.time;
        let ghost n = months as nat;
        if months == 0 {
            return Result::Err(EngineError::ConfigError);
        }
        let f_ctx = match tranche_setup(cfg.loan.fund, cfg.rate.fund, months) {
            Option::Some(c) => c,
            Option::None => {
                proof {
                    assert(!ei_month_ok(cfg, n, 0));
                }
                return Result::Err(EngineError::Overflow);
            },
        };
        let b_ctx = match tranche_setup(cfg.loan.business, cfg.rate.business, months) {
            Option::Some(c) => c,
            Option::None => {
                proof {
                    assert(!ei_month_ok(cfg, n, 0));
                }
                return Result::Err(EngineError::Overflow);
            },
        };
        let mut rows: Vec<MonthlyBreakdown> = Vec::new();
        let mut f_tot = Dec { m: 0, s: 0 };
        let mut b_tot = Dec { m: 0, s: 0 };
        let mut tot = Dec { m: 0, s: 0 };
        let mut i: u32 = 0;
        while i < months
            invariant
                cfg == *self.config,
                n == months as nat,
                months == cfg.loan.time,
                1 <= months,
                i <= months,
                tranche_matches(
                    f_ctx,
                    scaled_fund(cfg),
                    cfg.rate.fund,
                    monthly_rate(cfg.rate.fund),
                    n,
                ),
                tranche_matches(
                    b_ctx,
                    scaled_business(cfg),
                    cfg.rate.business,
                    monthly_rate(cfg.rate.business),
                    n,
                ),
                dec_wf(f_tot),
                dec_wf(b_tot),
                dec_wf(tot),
                ei_tot(cfg, n, i as nat) == Option::Some(dv(tot)),
                ei_f_tot(cfg, n, i as nat) == Option::Some(dv(f_tot)),
                ei_b_tot(cfg, n, i as nat) == Option::Some(dv(b_tot)),
                rows@.len() == i as nat,
                forall|k: int| 0 <= k < i ==> ei_row_matches(cfg, n, k as nat, #[trigger] rows@[k]),
                forall|k: int| 0 <= k < i ==> row_wf(#[trigger] rows@[k]),
            decreases months - i,
        {
            let fm = match tranche_month(
                &f_ctx,
                i,
                Ghost(scaled_fund(cfg)),
                Ghost(cfg.rate.fund),
                Ghost(monthly_rate(cfg.rate.fund)),
                Ghost(n),
            ) {
                Option::Some(v) => v,
                Option::None => {
                    proof {
                        assert(!ei_month_ok(cfg, n, i as nat));
                    }
                    return Result::Err(EngineError::Overflow);
                },
            };
            let bm = match tranche_month(
                &b_ctx,
                i,
                Ghost(scaled_business(cfg)),
                Ghost(cfg.rate.business),
                Ghost(monthly_rate(cfg.rate.business)),
                Ghost(n),
            ) {
                Option::Some(v) => v,
                Option::None => {
                    proof {
                        assert(!ei_month_ok(cfg, n, i as nat));
                    }
                    return Result::Err(EngineError::Overflow);
                },
            };
            let f_int = fm.0;
            let f_pr = fm.1;
            let b_int = bm.0;
            let b_pr = bm.1;
            let t1 = match dec_add(tot, f_int) {
                Option::Some(v) => v,
                Option::None => {
                    proof {
                        assert(ei_tot(cfg, n, (i + 1) as nat) is None);
                        lemma_ei_tot_none_propagates(cfg, n, (i + 1) as nat, n);
                    }
                    return Result::Err(EngineError::Overflow);
                },
            };
            let tot_n = match dec_add(t1, b_int) {
                Option::Some(v) => v,
                Option::None => {
                    proof {
                        assert(ei_tot(cfg, n, (i + 1) as nat) is None);
                        lemma_ei_tot_none_propagates(cfg, n, (i + 1) as nat, n);
                    }
                    return Result::Err(EngineError::Overflow);
                },
            };
            let ftot_n = match dec_add(f_tot, f_int) {
                Option::Some(v) => v,
                Option::None => {
                    proof {
                        assert(ei_f_tot(cfg, n, (i + 1) as nat) is None);
                        lemma_ei_f_tot_none_propagates(cfg, n, (i + 1) as nat, n);
                    }
                    return Result::Err(EngineError::Overflow);
                },
            };
            let btot_n = match dec_add(b_tot, b_int) {
                Option::Some(v) => v,
                Option::None => {
                    proof {
                        assert(ei_b_tot(cfg, n, (i + 1) as nat) is None);
                        lemma_ei_b_tot_none_propagates(cfg, n, (i + 1) as nat, n);
                    }
                    return Result::Err(EngineError::Overflow);
                },
            };
            rows.push(
                MonthlyBreakdown {
                    month: i + 1,
                    fund_principal: f_pr,
                    fund_interest: f_int,
                    business_principal: b_pr,
                    business_interest: b_int,
                },
            );
            proof {
                assert(ei_row_matches(cfg, n, i as nat, rows@[i as int]));
            }
            tot = tot_n;
            f_tot = ftot_n;
            b_tot = btot_n;
            i = i + 1;
        }
        proof {
            assert forall|k: nat| k < n implies ei_month_ok(cfg, n, k) by {
                assert(ei_row_matches(cfg, n, k, rows@[k as int]));
            }
        }
        Result::Ok(
            AmortizationResult {
                rows,
                fund_total_interest: f_tot,
                business_total_interest: b_tot,
                total_interest: tot,
                warnings: Vec::new(),
            },
        )
    }
}

} // verus!
