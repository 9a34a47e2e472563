//! The engine's arithmetic laws, stated and proved in exact integer
//! arithmetic.
//!
//! The decimal type rounds at its representable precision, so these laws
//! are stated over the exact rational counterparts of the engine's
//! formulas, with denominators cleared: a monthly rate is a fraction
//! `p / q`, and money values are scaled by the common denominator of the
//! identity at hand. The engine's decimal schedule reproduces each law up
//! to the decimal type's rounding.

use vstd::prelude::*;
use crate::decimal::{Dec, dv};
use crate::engine::o_div;
use crate::equal_installment::{ei_interest, ei_payment};

verus! {

/// `b` to the power `e`.
pub open spec fn pow_int(b: int, e: nat) -> int
    decreases e,
{
    if e == 0 {
        1
    } else {
        b * pow_int(b, (e - 1) as nat)
    }
}

/// The partial geometric sum over `i < k` of `a^i * q^(n-1-i)`.
pub open spec fn partial_geo(a: int, q: int, n: nat, k: nat) -> int
    decreases k,
{
    if k == 0 {
        0
    } else {
        partial_geo(a, q, n, (k - 1) as nat) + pow_int(a, (k - 1) as nat) * pow_int(
            q,
            (n - k) as nat,
        )
    }
}

/// The telescoping identity of the geometric sum:
/// `(a - q) * sum_{i<k} a^i q^(n-1-i) == a^k q^(n-k) - q^n`.
pub proof fn lemma_partial_geo_telescope(a: int, q: int, n: nat, k: nat)
    requires
        k <= n,
    ensures
        (a - q) * partial_geo(a, q, n, k) == pow_int(a, k) * pow_int(q, (n - k) as nat) - pow_int(
            q,
            n,
        ),
    decreases k,
{
    if k == 0 {
        assert(pow_int(a, 0) == 1);
    } else {
        lemma_partial_geo_telescope(a, q, n, (k - 1) as nat);
        let s1 = partial_geo(a, q, n, (k - 1) as nat);
        let pk1 = pow_int(a, (k - 1) as nat);
        let qnk = pow_int(q, (n - k) as nat);
        assert(pow_int(q, (n - (k - 1)) as nat) == q * qnk);
        assert(pow_int(a, k) == a * pk1);
        assert((a - q) * (s1 + pk1 * qnk) == (a - q) * s1 + a * (pk1 * qnk) - q * (pk1 * qnk))
            by (nonlinear_arith);
        assert(pk1 * (q * qnk) == q * (pk1 * qnk)) by (nonlinear_arith);
        assert((a * pk1) * qnk == a * (pk1 * qnk)) by (nonlinear_arith);
    }
}

/// The equal-installment interest of month `i` in exact arithmetic, times
/// the common denominator `q * ((p+q)^n - q^n)`: with monthly rate `p / q`
/// on principal `pr` over `n` months, the interest of month `i` is
/// `(pr*r - pay) * (1+r)^i + pay` for the exact closed-form payment
/// `pay`, which clears to `pr * p * ((p+q)^n - (p+q)^i * q^(n-i))`.
pub open spec fn ei_exact_interest_num(pr: int, p: int, q: int, n: nat, i: nat) -> int {
    pr * p * (pow_int(p + q, n) - pow_int(p + q, i) * pow_int(q, (n - i) as nat))
}

/// The sum of the cleared interests of months `i < k`.
pub open spec fn ei_exact_interest_total(pr: int, p: int, q: int, n: nat, k: nat) -> int
    decreases k,
{
    if k == 0 {
        0
    } else {
        ei_exact_interest_total(pr, p, q, n, (k - 1) as nat) + ei_exact_interest_num(
            pr,
            p,
            q,
            n,
            (k - 1) as nat,
        )
    }
}

/// The partial sums of the cleared interests, expressed through the
/// partial geometric sum.
proof fn lemma_interest_total_partial(pr: int, p: int, q: int, n: nat, k: nat)
    requires
        k <= n,
    ensures
        ei_exact_interest_total(pr, p, q, n, k) == pr * p * (k * pow_int(p + q, n) - q
            * partial_geo(p + q, q, n, k)),
    decreases k,
{
    let a = p + q;
    if k == 0 {
        assert(pr * p * (0 * pow_int(a, n) - q * 0) == 0) by (nonlinear_arith);
    } else {
        lemma_interest_total_partial(pr, p, q, n, (k - 1) as nat);
        let an = pow_int(a, n);
        let s1 = partial_geo(a, q, n, (k - 1) as nat);
        let pk1 = pow_int(a, (k - 1) as nat);
        let qnk = pow_int(q, (n - k) as nat);
        assert(pow_int(q, (n - (k - 1)) as nat) == q * qnk);
        assert(partial_geo(a, q, n, k) == s1 + pk1 * qnk);
        assert(ei_exact_interest_num(pr, p, q, n, (k - 1) as nat) == pr * p * (an - pk1 * (q
            * qnk)));
        assert(pr * p * ((k - 1) * an - q * s1) + pr * p * (an - pk1 * (q * qnk)) == pr * p * (k
            * an - q * (s1 + pk1 * qnk))) by (nonlinear_arith);
    }
}

/// Reconciliation of the equal-installment schedule, in exact arithmetic:
/// over `n` months at monthly rate `p / q` on principal `pr`, the summed
/// interests equal `n * payment - principal`. Both sides are cleared by
/// the common denominator `q * ((p+q)^n - q^n)`: the cleared payment is
/// `pr * p * (p+q)^n`, the cleared principal `pr * q * ((p+q)^n - q^n)`.
/// The identity is algebraic and holds for all integer `pr`, `p`, `q`.
pub proof fn lemma_equal_installment_reconciliation(pr: int, p: int, q: int, n: nat)
    ensures
        ei_exact_interest_total(pr, p, q, n, n) == n * (pr * p * pow_int(p + q, n)) - pr * q * (
        pow_int(p + q, n) - pow_int(q, n)),
{
    let a = p + q;
    let an = pow_int(a, n);
    let qn = pow_int(q, n);
    let s = partial_geo(a, q, n, n);
    lemma_interest_total_partial(pr, p, q, n, n);
    lemma_partial_geo_telescope(a, q, n, n);
    assert(pow_int(q, 0) == 1);
    assert(p * s == an - qn) by {
        assert((a - q) * s == pow_int(a, n) * 1 - qn);
    }
    assert(pr * p * (n * an - q * s) == n * (pr * p * an) - pr * q * (an - qn)) by (nonlinear_arith)
        requires
            p * s == an - qn,
    ;
}

/// The outstanding balance of an equal-installment schedule entering
/// month `i`, computed iteratively — each month the payment is credited
/// and the month's interest `balance * p/q` is charged — with
/// denominators cleared: the balance entering month `i` carries the
/// denominator `q^(i+1) * ((p+q)^n - q^n)`, so the recurrence is
/// `b(0) = pr * q * ((p+q)^n - q^n)` and
/// `b(i+1) = (p+q) * b(i) - pay_num * q^(i+1)` for the cleared payment
/// `pay_num = pr * p * (p+q)^n`.
pub open spec fn ei_iterative_balance_num(pr: int, p: int, q: int, n: nat, i: nat) -> int
    decreases i,
{
    if i == 0 {
        pr * q * (pow_int(p + q, n) - pow_int(q, n))
    } else {
        (p + q) * ei_iterative_balance_num(pr, p, q, n, (i - 1) as nat) - (pr * p * pow_int(
            p + q,
            n,
        )) * pow_int(q, i)
    }
}

/// The closed form reproduces iterative amortization, in exact
/// arithmetic: the iteratively computed balance entering month `i`
/// equals `pr * q^(i+1) * ((p+q)^n - (p+q)^i * q^(n-i))` — so the
/// month's interest `balance * p/q` is exactly the closed-form interest
/// `ei_exact_interest_num` under its denominator. Algebraic; holds for
/// all integer `pr`, `p`, `q`.
pub proof fn lemma_closed_form_matches_iteration(pr: int, p: int, q: int, n: nat, i: nat)
    requires
        i <= n,
    ensures
        ei_iterative_balance_num(pr, p, q, n, i) == pr * pow_int(q, i + 1) * (pow_int(p + q, n)
            - pow_int(p + q, i) * pow_int(q, (n - i) as nat)),
        p * ei_iterative_balance_num(pr, p, q, n, i) == pow_int(q, i) * q * ei_exact_interest_num(
            pr,
            p,
            q,
            n,
            i,
        ),
    decreases i,
{
    let a = p + q;
    let an = pow_int(a, n);
    if i == 0 {
        assert(pow_int(q, 1) == q * pow_int(q, 0));
        assert(pow_int(a, 0) == 1);
        assert(pr * q * (an - pow_int(q, n)) == pr * (q * 1) * (an - 1 * pow_int(q, n)))
            by (nonlinear_arith);
    } else {
        lemma_closed_form_matches_iteration(pr, p, q, n, (i - 1) as nat);
        let b1 = ei_iterative_balance_num(pr, p, q, n, (i - 1) as nat);
        let qi = pow_int(q, (i - 1) as nat);
        let ai1 = pow_int(a, (i - 1) as nat);
        let qni1 = pow_int(q, (n - i + 1) as nat);
        let qni = pow_int(q, (n - i) as nat);
        assert(pow_int(q, i) == q * qi);
        assert(pow_int(q, i + 1) == q * pow_int(q, i));
        assert(pow_int(a, i) == a * ai1);
        assert(qni1 == q * qni);
        // b1 == x * t1 by the induction hypothesis; one step of the
        // recurrence turns it into x * (q * t2), the claim at `i`.
        let x = pr * (q * qi);
        let t1 = an - ai1 * (q * qni);
        let t2 = an - (a * ai1) * qni;
        assert(b1 == x * t1);
        assert(ei_iterative_balance_num(pr, p, q, n, i) == a * (x * t1) - (pr * p * an) * (q
            * qi));
        assert((pr * p * an) * (q * qi) == x * (p * an)) by (nonlinear_arith)
            requires
                x == pr * (q * qi),
        ;
        assert(a * (x * t1) == x * (a * t1)) by (nonlinear_arith);
        assert(a * t1 - p * an == q * t2) by (nonlinear_arith)
            requires
                a == p + q,
                t1 == an - ai1 * (q * qni),
                t2 == an - (a * ai1) * qni,
        ;
        assert(x * (a * t1) - x * (p * an) == x * (a * t1 - p * an)) by (nonlinear_arith);
        assert(x * (q * t2) == pr * (q * (q * qi)) * t2) by (nonlinear_arith)
            requires
                x == pr * (q * qi),
        ;
    }
    // The interest link: the balance formula times p is the closed-form
    // interest times the denominator gap q^i * q.
    let qi1 = pow_int(q, i + 1);
    let pw = pow_int(a, i) * pow_int(q, (n - i) as nat);
    assert(qi1 == q * pow_int(q, i));
    assert(p * (pr * qi1 * (an - pw)) == pow_int(q, i) * q * (pr * p * (an - pw)))
        by (nonlinear_arith)
        requires
            qi1 == q * pow_int(q, i),
    ;
}

/// The sum of `k` copies of `x`.
pub open spec fn repeated_sum(x: int, k: nat) -> int
    decreases k,
{
    if k == 0 {
        0
    } else {
        repeated_sum(x, (k - 1) as nat) + x
    }
}

proof fn lemma_repeated_sum(x: int, k: nat)
    ensures
        repeated_sum(x, k) == k * x,
    decreases k,
{
    if k == 0 {
        assert(k * x == 0) by (nonlinear_arith)
            requires
                k == 0,
        ;
    } else {
        lemma_repeated_sum(x, (k - 1) as nat);
        assert(((k - 1) as nat) as int == k - 1);
        assert(repeated_sum(x, k) == (k - 1) * x + x);
        assert((k - 1) * x + x == k * x) by (nonlinear_arith);
    }
}

/// Amortization completeness of the equal-principal schedule: the fixed
/// monthly principal is the principal over the term, and the `n` monthly
/// payments plus the remainder of that division add back to exactly the
/// principal, with the remainder below one month's share of precision.
pub proof fn lemma_equal_principal_completeness(principal: int, n: nat)
    requires
        n >= 1,
        principal >= 0,
    ensures
        repeated_sum(principal / (n as int), n) + principal % (n as int) == principal,
        0 <= principal % (n as int) < n,
{
    lemma_repeated_sum(principal / (n as int), n);
    vstd::arithmetic::div_mod::lemma_fundamental_div_mod(principal, n as int);
    vstd::arithmetic::div_mod::lemma_mod_bound(principal, n as int);
    assert(n * (principal / n as int) == (principal / n as int) * n) by (nonlinear_arith);
}

/// The extra repayments credited over the first `k` months.
pub open spec fn cum_overrides(ov: Seq<int>, k: nat) -> int
    decreases k,
{
    if k == 0 {
        0
    } else {
        cum_overrides(ov, (k - 1) as nat) + ov[k - 1]
    }
}

/// The outstanding balance of an equal-principal schedule entering month
/// `i` (0-based), scaled by the term `n` so it is an integer:
/// `n * (P - i * (P/n) - overrides so far)`.
pub open spec fn outstanding_scaled(principal: int, n: nat, ov: Seq<int>, i: nat) -> int {
    principal * (n - i) - n * cum_overrides(ov, i)
}

/// Monotonic outstanding balance: with a nonnegative principal and
/// nonnegative overrides, the outstanding balance never increases from
/// one month to the next.
pub proof fn lemma_outstanding_monotonic(principal: int, n: nat, ov: Seq<int>, i: nat)
    requires
        principal >= 0,
        i < n,
        n <= ov.len(),
        forall|j: int| 0 <= j < ov.len() ==> #[trigger] ov[j] >= 0,
    ensures
        outstanding_scaled(principal, n, ov, i + 1) <= outstanding_scaled(principal, n, ov, i),
{
    assert(cum_overrides(ov, i + 1) == cum_overrides(ov, i) + ov[i as int]);
    assert(principal * (n - (i + 1)) == principal * (n - i) - principal) by (nonlinear_arith);
    assert(n * (cum_overrides(ov, i) + ov[i as int]) >= n * cum_overrides(ov, i))
        by (nonlinear_arith)
        requires
            ov[i as int] >= 0,
    ;
}

proof fn lemma_cum_overrides_zero(ov: Seq<int>, k: nat)
    requires
        k <= ov.len(),
        forall|j: int| 0 <= j < ov.len() ==> #[trigger] ov[j] == 0,
    ensures
        cum_overrides(ov, k) == 0,
    decreases k,
{
    if k > 0 {
        lemma_cum_overrides_zero(ov, (k - 1) as nat);
    }
}

/// Terminal balance: with no extra repayments the outstanding balance is
/// exactly zero immediately after the final month's amortization.
pub proof fn lemma_outstanding_terminal(principal: int, n: nat, ov: Seq<int>)
    requires
        n <= ov.len(),
        forall|j: int| 0 <= j < ov.len() ==> #[trigger] ov[j] == 0,
    ensures
        outstanding_scaled(principal, n, ov, n) == 0,
{
    lemma_cum_overrides_zero(ov, n);
    assert(principal * (n - n) == 0) by (nonlinear_arith);
}

/// Zero-rate boundary: at a zero annual rate a tranche's
/// equal-installment payment is its scaled principal over the term, and
/// whatever interest a month carries is exactly zero.
pub proof fn lemma_zero_rate_boundary(
    p: Option<(int, int)>,
    annual: Dec,
    mr: Option<(int, int)>,
    n: nat,
    i: nat,
)
    requires
        dv(annual).0 == 0,
    ensures
        ei_payment(p, annual, mr, n) == o_div(p, Option::Some((n as int, 0))),
        ei_interest(p, annual, mr, n, i) matches Some(v) ==> v == (0int, 0int),
{
}

} // verus!
