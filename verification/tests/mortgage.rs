use std::str::FromStr;

use rust_decimal::Decimal;
use rust_decimal::MathematicalOps;

use mortgage::config::{Config, Loan, Rate, RateType};
use mortgage::decimal::Dec;
use mortgage::engine::{mortgage_process, EngineError};
use mortgage::equal_installment::Interest;
use mortgage::equal_principal::Principal;
use mortgage::overrides::{OverrideError, Repays};

fn dec(s: &str) -> Dec {
    let d = Decimal::from_str(s).unwrap();
    Dec {
        m: d.mantissa(),
        s: d.scale(),
    }
}

fn to_rd(d: &Dec) -> Decimal {
    Decimal::from_i128_with_scale(d.m, d.s)
}

fn round2(d: &Dec) -> Decimal {
    to_rd(d).round_dp(2)
}

fn lines(records: &[&str]) -> Vec<Vec<u8>> {
    records.iter().map(|r| r.as_bytes().to_vec()).collect()
}

fn config(business: &str, fund: &str, time: u32, brate: &str, frate: &str, ty: RateType) -> Config {
    Config {
        loan: Loan {
            business: dec(business),
            fund: dec(fund),
            time,
        },
        rate: Rate {
            business: dec(brate),
            fund: dec(frate),
            ty,
        },
    }
}

fn monthly_payment(number: Decimal, rate: Decimal, time: u64) -> Decimal {
    number * (rate * (rate + Decimal::ONE).powu(time))
        / ((rate + Decimal::ONE).powu(time) - Decimal::ONE)
}

#[test]
fn policy_violation_in_first_year() {
    let r = Repays::new(&lines(&["6, 0.5"]));
    assert_eq!(r.err().unwrap(), OverrideError::PolicyViolation { line: 0 });
}

#[test]
fn policy_accepts_month_twelve() {
    let r = Repays::new(&lines(&["12, 0.5"])).unwrap();
    let v = r.lookup(12).unwrap();
    assert_eq!(to_rd(&v), Decimal::from_str("5000.0000").unwrap());
}

#[test]
fn policy_accepts_zero_in_first_year() {
    let r = Repays::new(&lines(&["6, 0"])).unwrap();
    let v = r.lookup(6).unwrap();
    assert!(to_rd(&v).is_zero());
}

#[test]
fn parse_error_without_comma() {
    let r = Repays::new(&lines(&["5"]));
    assert_eq!(r.err().unwrap(), OverrideError::ParseError { line: 0 });
}

#[test]
fn parse_error_bad_month() {
    let r = Repays::new(&lines(&["abc, 1"]));
    assert_eq!(r.err().unwrap(), OverrideError::ParseError { line: 0 });
}

#[test]
fn parse_error_bad_amount() {
    let r = Repays::new(&lines(&["15, xyz"]));
    assert_eq!(r.err().unwrap(), OverrideError::ParseError { line: 0 });
}

#[test]
fn parse_error_reports_first_bad_line() {
    let r = Repays::new(&lines(&["13, 1", "oops", "6, 9"]));
    assert_eq!(r.err().unwrap(), OverrideError::ParseError { line: 1 });
}

#[test]
fn parse_trims_fields_and_ignores_extra_columns() {
    let r = Repays::new(&lines(&["  13 ,  2.5 , junk"])).unwrap();
    let v = r.lookup(13).unwrap();
    assert_eq!(to_rd(&v), Decimal::from_str("25000.0000").unwrap());
}

#[test]
fn parse_accepts_leading_zero_months() {
    let r = Repays::new(&lines(&["014, 1"])).unwrap();
    assert!(r.lookup(14).is_some());
}

#[test]
fn duplicate_month_last_record_wins() {
    let r = Repays::new(&lines(&["13, 1", "13, 2"])).unwrap();
    let v = r.lookup(13).unwrap();
    assert_eq!(to_rd(&v), Decimal::from_str("20000.0000").unwrap());
}

#[test]
fn missing_month_lookup_is_none() {
    let r = Repays::new(&lines(&[])).unwrap();
    assert!(r.lookup(50).is_none());
}

#[test]
fn zero_months_is_config_error() {
    let cfg = config("100", "50", 0, "4.3", "3.1", RateType::Interest);
    let policy = Repays::new(&lines(&[])).unwrap();
    let r = mortgage_process(Interest {
        config: &cfg,
        policy: &policy,
    });
    assert_eq!(r.err().unwrap(), EngineError::ConfigError);
}

#[test]
fn oversized_principal_is_overflow() {
    let cfg = config(
        "7000000000000000000000000000",
        "50",
        12,
        "4.3",
        "3.1",
        RateType::Interest,
    );
    let policy = Repays::new(&lines(&[])).unwrap();
    let r = mortgage_process(Interest {
        config: &cfg,
        policy: &policy,
    });
    assert_eq!(r.err().unwrap(), EngineError::Overflow);
}

#[test]
fn end_to_end_equal_installment() {
    let cfg = config("100", "50", 240, "4.3", "3.1", RateType::Interest);
    let policy = Repays::new(&lines(&[])).unwrap();
    let res = mortgage_process(Interest {
        config: &cfg,
        policy: &policy,
    })
    .unwrap();
    assert_eq!(res.rows.len(), 240);
    assert!(res.warnings.is_empty());

    // First-month fund interest: 500000 * (3.1 / 100 / 12).
    let expected = (Decimal::from(500000) * (Decimal::from_str("3.1").unwrap() / Decimal::from(100) / Decimal::from(12)))
        .round_dp(2);
    assert_eq!(round2(&res.rows[0].fund_interest), expected);

    // Combined total interest reconciles with the closed form per tranche.
    let frate = Decimal::from_str("3.1").unwrap() / Decimal::from(100) / Decimal::from(12);
    let brate = Decimal::from_str("4.3").unwrap() / Decimal::from(100) / Decimal::from(12);
    let fund_month = monthly_payment(Decimal::from(500000), frate, 240);
    let business_month = monthly_payment(Decimal::from(1000000), brate, 240);
    let expected_total = fund_month * Decimal::from(240) - Decimal::from(500000)
        + business_month * Decimal::from(240)
        - Decimal::from(1000000);
    assert_eq!(
        round2(&res.total_interest),
        expected_total.round_dp(2)
    );
}

#[test]
fn reconciliation_per_tranche_short_term() {
    let cfg = config("10", "5", 12, "4.3", "3.1", RateType::Interest);
    let policy = Repays::new(&lines(&[])).unwrap();
    let res = mortgage_process(Interest {
        config: &cfg,
        policy: &policy,
    })
    .unwrap();
    let frate = Decimal::from_str("3.1").unwrap() / Decimal::from(100) / Decimal::from(12);
    let fund_month = monthly_payment(Decimal::from(50000), frate, 12);
    let expected = fund_month * Decimal::from(12) - Decimal::from(50000);
    assert_eq!(
        round2(&res.fund_total_interest),
        expected.round_dp(2)
    );
}

#[test]
fn zero_rate_equal_installment() {
    let cfg = config("100", "50", 240, "4.3", "0", RateType::Interest);
    let policy = Repays::new(&lines(&[])).unwrap();
    let res = mortgage_process(Interest {
        config: &cfg,
        policy: &policy,
    })
    .unwrap();
    let pay = Decimal::from(500000) / Decimal::from(240);
    for row in &res.rows {
        assert!(to_rd(&row.fund_interest).is_zero());
        assert_eq!(to_rd(&row.fund_principal), pay);
    }
    assert!(to_rd(&res.fund_total_interest).is_zero());
}

#[test]
fn equal_principal_monthly_principal_and_completeness() {
    let cfg = config("100", "50", 240, "4.3", "3.1", RateType::Principal);
    let policy = Repays::new(&lines(&[])).unwrap();
    let res = mortgage_process(Principal {
        config: &cfg,
        policy: &policy,
    })
    .unwrap();
    assert_eq!(res.rows.len(), 240);
    let pm = Decimal::from(500000) / Decimal::from(240);
    assert_eq!(to_rd(&res.rows[0].fund_principal), pm);
    // The 240 fixed payments add back to the principal (within rounding).
    let total = pm * Decimal::from(240);
    assert_eq!(total.round_dp(2), Decimal::from(500000).round_dp(2));
}

#[test]
fn equal_principal_first_month_interest() {
    let cfg = config("100", "50", 240, "4.3", "3.1", RateType::Principal);
    let policy = Repays::new(&lines(&[])).unwrap();
    let res = mortgage_process(Principal {
        config: &cfg,
        policy: &policy,
    })
    .unwrap();
    let frate = Decimal::from_str("3.1").unwrap() / Decimal::from(100) / Decimal::from(12);
    let expected = (Decimal::from(500000) * frate).round_dp(2);
    assert_eq!(round2(&res.rows[0].fund_interest), expected);
}

#[test]
fn equal_principal_outstanding_monotonic() {
    let cfg = config("100", "50", 240, "4.3", "3.1", RateType::Principal);
    let policy = Repays::new(&lines(&[])).unwrap();
    let res = mortgage_process(Principal {
        config: &cfg,
        policy: &policy,
    })
    .unwrap();
    // Interest is the rate on the outstanding balance, so a non-increasing
    // balance shows as non-increasing interest.
    for w in res.rows.windows(2) {
        assert!(to_rd(&w[1].business_interest) <= to_rd(&w[0].business_interest));
        assert!(to_rd(&w[1].fund_interest) <= to_rd(&w[0].fund_interest));
    }
}

#[test]
fn equal_principal_override_reduces_interest() {
    let cfg = config("100", "50", 240, "4.3", "3.1", RateType::Principal);
    let mut records: Vec<String> = Vec::new();
    for m in 1..=240u32 {
        let amount = if m == 13 { "10" } else { "0" };
        records.push(format!("{}, {}", m, amount));
    }
    let refs: Vec<&str> = records.iter().map(|s| s.as_str()).collect();
    let policy = Repays::new(&lines(&refs)).unwrap();
    let res = mortgage_process(Principal {
        config: &cfg,
        policy: &policy,
    })
    .unwrap();
    assert!(res.warnings.is_empty());

    let empty = Repays::new(&lines(&[])).unwrap();
    let base = mortgage_process(Principal {
        config: &cfg,
        policy: &empty,
    })
    .unwrap();
    // Months after the override pay less business interest than without it.
    assert!(
        to_rd(&res.rows[13].business_interest) < to_rd(&base.rows[13].business_interest)
    );
    // The fund tranche is not subject to overrides.
    assert_eq!(
        to_rd(&res.rows[13].fund_interest),
        to_rd(&base.rows[13].fund_interest)
    );
}

#[test]
fn missing_override_row_warns_and_proceeds() {
    let cfg = config("100", "50", 240, "4.3", "3.1", RateType::Principal);
    let mut records: Vec<String> = Vec::new();
    for m in 1..=240u32 {
        if m != 50 {
            records.push(format!("{}, 0", m));
        }
    }
    let refs: Vec<&str> = records.iter().map(|s| s.as_str()).collect();
    let policy = Repays::new(&lines(&refs)).unwrap();
    assert!(policy.lookup(50).is_none());
    let res = mortgage_process(Principal {
        config: &cfg,
        policy: &policy,
    })
    .unwrap();
    assert_eq!(res.rows.len(), 240);
    assert_eq!(res.warnings, vec![50u64]);
}

#[test]
fn row_totals_recomputed_from_parts() {
    let cfg = config("100", "50", 12, "4.3", "3.1", RateType::Interest);
    let policy = Repays::new(&lines(&[])).unwrap();
    let res = mortgage_process(Interest {
        config: &cfg,
        policy: &policy,
    })
    .unwrap();
    let row = &res.rows[0];
    let ft = row.fund_total().unwrap();
    assert_eq!(
        to_rd(&ft),
        to_rd(&row.fund_principal) + to_rd(&row.fund_interest)
    );
    let ci = row.combined_interest().unwrap();
    assert_eq!(
        to_rd(&ci),
        to_rd(&row.fund_interest) + to_rd(&row.business_interest)
    );
    let ct = row.combined_total().unwrap();
    assert_eq!(
        to_rd(&ct),
        to_rd(&row.fund_principal)
            + to_rd(&row.business_principal)
            + to_rd(&row.fund_interest)
            + to_rd(&row.business_interest)
    );
}
