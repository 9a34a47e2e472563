//! The equal-principal strategy: a fixed principal payment per tranche
//! every month, interest on the outstanding balance, and extra-repayment
//! overrides credited against the business tranche's balance.
//!
//! The whole schedule is pinned to a recurrence over the named decimal
//! operations: `ep_state` carries the running totals month by month, and
//! each produced row is exactly what the recurrence assigns to it. A month
//! with no override entry contributes zero and is reported as a warning,
//! never as an error.

use vstd::prelude::*;
use crate::config::{Config, config_wf};
use crate::decimal::{Dec, dec_wf, dv, dec_add, dec_sub, dec_mul, dec_div, dec_from_u32};
use crate::engine::{
    AmortizationResult, Cal, EngineError, MonthlyBreakdown, monthly_rate, o_add, o_div, o_mul,
    o_sub, result_wf, row_wf, scaled_business, scaled_fund,
};
use crate::overrides::Repays;

verus! {

/// The running totals of an equal-principal schedule after some months:
/// principal already amortized per tranche (overrides included), and the
/// interest accumulated per tranche and combined.
pub struct EpState {
    pub f_already: (int, int),
    pub b_already: (int, int),
    pub f_tot: (int, int),
    pub b_tot: (int, int),
    pub tot: (int, int),
}

/// The extra repayment scheduled for a month; zero when the table has no
/// entry for it.
pub open spec fn ov_amt(ov: Map<u64, (int, int)>, m: u64) -> (int, int) {
    if ov.contains_key(m) {
        ov[m]
    } else {
        (0, 0)
    }
}

/// The fund tranche's fixed monthly principal.
pub open spec fn ep_fund_pm(cfg: Config) -> Option<(int, int)> {
    o_div(scaled_fund(cfg), Option::Some((cfg.loan.time as int, 0)))
}

/// The business tranche's fixed monthly principal.
pub open spec fn ep_business_pm(cfg: Config) -> Option<(int, int)> {
    o_div(scaled_business(cfg), Option::Some((cfg.loan.time as int, 0)))
}

/// The fund interest of the month entered from state `st`: the rate on
/// the scaled principal less what is already amortized.
pub open spec fn ep_f_interest(cfg: Config, st: EpState) -> Option<(int, int)> {
    o_mul(o_sub(scaled_fund(cfg), Option::Some(st.f_already)), monthly_rate(cfg.rate.fund))
}

/// The business interest of the month entered from state `st`.
pub open spec fn ep_b_interest(cfg: Config, st: EpState) -> Option<(int, int)> {
    o_mul(o_sub(scaled_business(cfg), Option::Some(st.b_already)), monthly_rate(cfg.rate.business))
}

/// One month's advance of the running totals; `i` is the 0-based month,
/// whose override entry is keyed `i + 1`.
pub open spec fn ep_step(cfg: Config, ov: Map<u64, (int, int)>, i: nat, st: EpState) -> Option<
    EpState,
> {
    let fi = ep_f_interest(cfg, st);
    let bi = ep_b_interest(cfg, st);
    let tot2 = o_add(o_add(Option::Some(st.tot), fi), bi);
    let ftot2 = o_add(Option::Some(st.f_tot), fi);
    let btot2 = o_add(Option::Some(st.b_tot), bi);
    let fa2 = o_add(Option::Some(st.f_already), ep_fund_pm(cfg));
    let ba2 = o_add(
        o_add(Option::Some(st.b_already), ep_business_pm(cfg)),
        Option::Some(ov_amt(ov, (i + 1) as u64)),
    );
    if tot2 is Some && ftot2 is Some && btot2 is Some && fa2 is Some && ba2 is Some {
        Option::Some(
            EpState {
                f_already: fa2->Some_0,
                b_already: ba2->Some_0,
                f_tot: ftot2->Some_0,
                b_tot: btot2->Some_0,
                tot: tot2->Some_0,
            },
        )
    } else {
        Option::None
    }
}

/// The running totals after `i` months; `None` as soon as any decimal
/// operation along the way was unrepresentable.
pub open spec fn ep_state(cfg: Config, ov: Map<u64, (int, int)>, i: nat) -> Option<EpState>
    decreases i,
{
    if i == 0 {
        Option::Some(
            EpState { f_already: (0, 0), b_already: (0, 0), f_tot: (0, 0), b_tot: (0, 0), tot: (0, 0) },
        )
    } else {
        match ep_state(cfg, ov, (i - 1) as nat) {
            Option::None => Option::None,
            Option::Some(st) => ep_step(cfg, ov, (i - 1) as nat, st),
        }
    }
}

/// The months in `1..=n` with no override entry, in chronological order.
pub open spec fn missing_months(ov: Map<u64, (int, int)>, n: nat) -> Seq<u64>
    decreases n,
{
    if n == 0 {
        Seq::empty()
    } else {
        missing_months(ov, (n - 1) as nat) + (if ov.contains_key(n as u64) {
            Seq::empty()
        } else {
            seq![n as u64]
        })
    }
}

/// Row `i` (0-based) carries month `i + 1`, the fixed principals, and the
/// interests of the state the month was entered from.
pub open spec fn ep_row_matches(
    cfg: Config,
    ov: Map<u64, (int, int)>,
    i: nat,
    row: MonthlyBreakdown,
) -> bool {
    match ep_state(cfg, ov, i) {
        Option::None => false,
        Option::Some(st) => {
            &&& row.month == i + 1
            &&& Option::Some(dv(row.fund_principal)) == ep_fund_pm(cfg)
            &&& Option::Some(dv(row.fund_interest)) == ep_f_interest(cfg, st)
            &&& Option::Some(dv(row.business_principal)) == ep_business_pm(cfg)
            &&& Option::Some(dv(row.business_interest)) == ep_b_interest(cfg, st)
        },
    }
}

/// Once the recurrence fails it stays failed.
proof fn lemma_ep_none_propagates(cfg: Config, ov: Map<u64, (int, int)>, i: nat, n: nat)
    requires
        i <= n,
        ep_state(cfg, ov, i) is None,
    ensures
        ep_state(cfg, ov, n) is None,
    decreases n - i,
{
    if i < n {
        lemma_ep_none_propagates(cfg, ov, i, (n - 1) as nat);
    }
}

/// A failing step at month `i` fails the whole schedule.
proof fn lemma_ep_stuck(cfg: Config, ov: Map<u64, (int, int)>, i: nat, n: nat, st: EpState)
    requires
        i < n,
        ep_state(cfg, ov, i) == Option::Some(st),
        ep_step(cfg, ov, i, st) is None,
    ensures
        ep_state(cfg, ov, n) is None,
{
    assert(ep_state(cfg, ov, i + 1) is None);
    lemma_ep_none_propagates(cfg, ov, i + 1, n);
}

/// The equal-principal strategy over a configuration and an override
/// schedule.
pub struct Principal<'a> {
    pub config: &'a Config,
    pub policy: &'a Repays,
}

impl<'a> Cal for Principal<'a> {
    open spec fn spec_months(&self) -> nat {
        self.config.loan.time as nat
    }

    open spec fn inputs_wf(&self) -> bool {
        config_wf(*self.config) && self.policy.wf()
    }

    /// Produce the whole equal-principal schedule.
    ///
    /// On success the rows, the aggregate interests and the warnings are
    /// exactly what the `ep_state` recurrence over the named decimal
    /// operations assigns; `ConfigError` comes on a zero-month term and
    /// `Overflow` exactly when the recurrence fails.
    fn process(&self) -> (r: Result<AmortizationResult, EngineError>)
        ensures
            ({
                let cfg = *self.config;
                let ov = self.policy@;
                let n = cfg.loan.time as nat;
                match r {
                    Result::Ok(res) => {
                        &&& n >= 1
                        &&& ep_state(cfg, ov, n) is Some
                        &&& result_wf(res)
                        &&& res.rows@.len() == n
                        &&& forall|k: int|
                            0 <= k < n ==> ep_row_matches(cfg, ov, k as nat, #[trigger] res.rows@[k])
                        &&& dv(res.total_interest) == (ep_state(cfg, ov, n)->Some_0).tot
                        &&& dv(res.fund_total_interest) == (ep_state(cfg, ov, n)->Some_0).f_tot
                        &&& dv(res.business_total_interest) == (ep_state(cfg, ov, n)->Some_0).b_tot
                        &&& res.warnings@ == missing_months(ov, n)
                    },
                    Result::Err(e) => (e == EngineError::ConfigError && n == 0) || (
                    e == EngineError::Overflow && n >= 1 && ep_state(cfg, ov, n) is None),
                }
            }),
    {
        let cfg: Config = *self.config;
        let months: u32 = cfg.loan.time;
        let ghost ov = self.policy@;
        let ghost n = months as nat;
        if months == 0 {
            return Result::Err(EngineError::ConfigError);
        }
        let ten_thousand = Dec { m: 10000, s: 0 };
        let hundred = Dec { m: 100, s: 0 };
        let twelve = Dec { m: 12, s: 0 };
        let ghost st0 = ep_state(cfg, ov, 0)->Some_0;
        let fund = match dec_mul(cfg.loan.fund, ten_thousand) {
            Option::Some(v) => v,
            Option::None => {
                proof {
                    assert(ep_step(cfg, ov, 0, st0) is None);
                    lemma_ep_stuck(cfg, ov, 0, n, st0);
                }
                return Result::Err(EngineError::Overflow);
            },
        };
        let frate1 = match dec_div(cfg.rate.fund, hundred) {
            Option::Some(v) => v,
            Option::None => {
                proof {
                    assert(ep_step(cfg, ov, 0, st0) is None);
                    lemma_ep_stuck(cfg, ov, 0, n, st0);
                }
                return Result::Err(EngineError::Overflow);
            },
        };
        let frate = match dec_div(frate1, twelve) {
            Option::Some(v) => v,
            Option::None => {
                proof {
                    assert(ep_step(cfg, ov, 0, st0) is None);
                    lemma_ep_stuck(cfg, ov, 0, n, st0);
                }
                return Result::Err(EngineError::Overflow);
            },
        };
        let business = match dec_mul(cfg.loan.business, ten_thousand) {
            Option::Some(v) => v,
            Option::None => {
                proof {
                    assert(ep_step(cfg, ov, 0, st0) is None);
                    lemma_ep_stuck(cfg, ov, 0, n, st0);
                }
                return Result::Err(EngineError::Overflow);
            },
        };
        let brate1 = match dec_div(cfg.rate.business, hundred) {
            Option::Some(v) => v,
            Option::None => {
                proof {
                    assert(ep_step(cfg, ov, 0, st0) is None);
                    lemma_ep_stuck(cfg, ov, 0, n, st0);
                }
                return Result::Err(EngineError::Overflow);
            },
        };
        let brate = match dec_div(brate1, twelve) {
            Option::Some(v) => v,
            Option::None => {
                proof {
                    assert(ep_step(cfg, ov, 0, st0) is None);
                    lemma_ep_stuck(cfg, ov, 0, n, st0);
                }
                return Result::Err(EngineError::Overflow);
            },
        };
        let months_dec = dec_from_u32(months);
        let f_pm = match dec_div(fund, months_dec) {
            Option::Some(v) => v,
            Option::None => {
                proof {
                    assert(ep_step(cfg, ov, 0, st0) is None);
                    lemma_ep_stuck(cfg, ov, 0, n, st0);
                }
                return Result::Err(EngineError::Overflow);
            },
        };
        let b_pm = match dec_div(business, months_dec) {
            Option::Some(v) => v,
            Option::None => {
                proof {
                    assert(ep_step(cfg, ov, 0, st0) is None);
                    lemma_ep_stuck(cfg, ov, 0, n, st0);
                }
                return Result::Err(EngineError::Overflow);
            },
        };
        let mut rows: Vec<MonthlyBreakdown> = Vec::new();
        let mut warnings: Vec<u64> = Vec::new();
        let zero = Dec { m: 0, s: 0 };
        let mut already_f = zero;
        let mut already_b = zero;
        let mut f_tot = zero;
        let mut b_tot = zero;
        let mut tot = zero;
        let mut i: u32 = 0;
        while i < months
            invariant
                self.policy.wf(),
                cfg == *self.config,
                ov == self.policy@,
                n == months as nat,
                months == cfg.loan.time,
                1 <= months,
                i <= months,
                zero == (Dec { m: 0, s: 0 }),
                dec_wf(fund),
                dec_wf(business),
                dec_wf(frate),
                dec_wf(brate),
                dec_wf(f_pm),
                dec_wf(b_pm),
                dec_wf(already_f),
                dec_wf(already_b),
                dec_wf(f_tot),
                dec_wf(b_tot),
                dec_wf(tot),
                Option::Some(dv(fund)) == scaled_fund(cfg),
                Option::Some(dv(business)) == scaled_business(cfg),
                Option::Some(dv(frate)) == monthly_rate(cfg.rate.fund),
                Option::Some(dv(brate)) == monthly_rate(cfg.rate.business),
                Option::Some(dv(f_pm)) == ep_fund_pm(cfg),
                Option::Some(dv(b_pm)) == ep_business_pm(cfg),
                ep_state(cfg, ov, i as nat) == Option::Some(
                    EpState {
                        f_already: dv(already_f),
                        b_already: dv(already_b),
                        f_tot: dv(f_tot),
                        b_tot: dv(b_tot),
                        tot: dv(tot),
                    },
                ),
                rows@.len() == i as nat,
                forall|k: int| 0 <= k < i ==> ep_row_matches(cfg, ov, k as nat, #[trigger] rows@[k]),
                forall|k: int| 0 <= k < i ==> row_wf(#[trigger] rows@[k]),
                warnings@ == missing_months(ov, i as nat),
            decreases months - i,
        {
            let ghost st = EpState {
                f_already: dv(already_f),
                b_already: dv(already_b),
                f_tot: dv(f_tot),
                b_tot: dv(b_tot),
                tot: dv(tot),
            };
            let f_bal = match dec_sub(fund, already_f) {
                Option::Some(v) => v,
                Option::None => {
                    proof {
                        assert(ep_step(cfg, ov, i as nat, st) is None);
                        lemma_ep_stuck(cfg, ov, i as nat, n, st);
                    }
                    return Result::Err(EngineError::Overflow);
                },
            };
            let f_int = match dec_mul(f_bal, frate) {
                Option::Some(v) => v,
                Option::None => {
                    proof {
                        assert(ep_step(cfg, ov, i as nat, st) is None);
                        lemma_ep_stuck(cfg, ov, i as nat, n, st);
                    }
                    return Result::Err(EngineError::Overflow);
                },
            };
            let b_bal = match dec_sub(business, already_b) {
                Option::Some(v) => v,
                Option::None => {
                    proof {
                        assert(ep_step(cfg, ov, i as nat, st) is None);
                        lemma_ep_stuck(cfg, ov, i as nat, n, st);
                    }
                    return Result::Err(EngineError::Overflow);
                },
            };
            let b_int = match dec_mul(b_bal, brate) {
                Option::Some(v) => v,
                Option::None => {
                    proof {
                        assert(ep_step(cfg, ov, i as nat, st) is None);
                        lemma_ep_stuck(cfg, ov, i as nat, n, st);
                    }
                    return Result::Err(EngineError::Overflow);
                },
            };
            let t1 = match dec_add(tot, f_int) {
                Option::Some(v) => v,
                Option::None => {
                    proof {
                        assert(ep_step(cfg, ov, i as nat, st) is None);
                        lemma_ep_stuck(cfg, ov, i as nat, n, st);
                    }
                    return Result::Err(EngineError::Overflow);
                },
            };
            let tot_n = match dec_add(t1, b_int) {
                Option::Some(v) => v,
                Option::None => {
                    proof {
                        assert(ep_step(cfg, ov, i as nat, st) is None);
                        lemma_ep_stuck(cfg, ov, i as nat, n, st);
                    }
                    return Result::Err(EngineError::Overflow);
                },
            };
            let ftot_n = match dec_add(f_tot, f_int) {
                Option::Some(v) => v,
                Option::None => {
                    proof {
                        assert(ep_step(cfg, ov, i as nat, st) is None);
                        lemma_ep_stuck(cfg, ov, i as nat, n, st);
                    }
                    return Result::Err(EngineError::Overflow);
                },
            };
            let btot_n = match dec_add(b_tot, b_int) {
                Option::Some(v) => v,
                Option::None => {
                    proof {
                        assert(ep_step(cfg, ov, i as nat, st) is None);
                        lemma_ep_stuck(cfg, ov, i as nat, n, st);
                    }
                    return Result::Err(EngineError::Overflow);
                },
            };
            let fa_n = match dec_add(already_f, f_pm) {
                Option::Some(v) => v,
                Option::None => {
                    proof {
                        assert(ep_step(cfg, ov, i as nat, st) is None);
                        lemma_ep_stuck(cfg, ov, i as nat, n, st);
                    }
                    return Result::Err(EngineError::Overflow);
                },
            };
            let ba1 = match dec_add(already_b, b_pm) {
                Option::Some(v) => v,
                Option::None => {
                    proof {
                        assert(ep_step(cfg, ov, i as nat, st) is None);
                        lemma_ep_stuck(cfg, ov, i as nat, n, st);
                    }
                    return Result::Err(EngineError::Overflow);
                },
            };
            let m64: u64 = (i as u64) + 1;
            let ov_d = match self.policy.lookup(m64) {
                Option::Some(v) => {
                    proof {
                        assert(missing_months(ov, (i + 1) as nat) =~= warnings@);
                    }
                    v
                },
                Option::None => {
                    warnings.push(m64);
                    proof {
                        assert(missing_months(ov, (i + 1) as nat) =~= warnings@);
                    }
                    zero
                },
            };
            let ba_n = match dec_add(ba1, ov_d) {
                Option::Some(v) => v,
                Option::None => {
                    proof {
                        assert(dv(ov_d) == ov_amt(ov, (i as nat + 1) as u64));
                        assert(ep_step(cfg, ov, i as nat, st) is None);
                        lemma_ep_stuck(cfg, ov, i as nat, n, st);
                    }
                    return Result::Err(EngineError::Overflow);
                },
            };
            rows.push(
                MonthlyBreakdown {
                    month: i + 1,
                    fund_principal: f_pm,
                    fund_interest: f_int,
                    business_principal: b_pm,
                    business_interest: b_int,
                },
            );
            proof {
                assert(dv(ov_d) == ov_amt(ov, (i as nat + 1) as u64));
                assert(ep_f_interest(cfg, st) == Option::Some(dv(f_int)));
                assert(ep_b_interest(cfg, st) == Option::Some(dv(b_int)));
                assert(ep_step(cfg, ov, i as nat, st) == Option::Some(
                    EpState {
                        f_already: dv(fa_n),
                        b_already: dv(ba_n),
                        f_tot: dv(ftot_n),
                        b_tot: dv(btot_n),
                        tot: dv(tot_n),
                    },
                ));
                assert(ep_row_matches(cfg, ov, i as nat, rows@[i as int]));
            }
            already_f = fa_n;
            already_b = ba_n;
            f_tot = ftot_n;
            b_tot = btot_n;
            tot = tot_n;
            i = i + 1;
        }
        Result::Ok(
            AmortizationResult {
                rows,
                fund_total_interest: f_tot,
                business_total_interest: b_tot,
                total_interest: tot,
                warnings,
            },
        )
    }
}

} // verus!
