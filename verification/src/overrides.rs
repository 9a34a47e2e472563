//! The repayment override table.
//!
//! A schedule of extra principal repayments, one text record per line in the
//! form `month, amount`, is parsed into a lookup keyed by month. Parsing is
//! strict: a record without a comma, or whose month or amount does not parse,
//! is a `ParseError`; a record with a positive amount in a month of the first
//! year is a `PolicyViolation`. Amounts are given in units of ten thousand
//! and are scaled at parse time. Duplicate months are resolved by the last
//! record. Months with no record are simply absent: lookups for them fall
//! back to zero, which callers surface as a warning, not an error.

use vstd::prelude::*;
use std::collections::HashMap;
use crate::decimal::{Dec, dec_wf, dv, val28, parse_dec_of, mul_of, dec_parse, dec_mul, lemma_val28_sign};

verus! {

broadcast use vstd::std_specs::hash::group_hash_axioms;

/// Why the override table as a whole was rejected.
#[derive(Clone, Copy, Debug, PartialEq, Eq, Structural)]
pub enum OverrideError {
    /// The record on this line (0-based) is not `month, amount`.
    ParseError { line: usize },
    /// The record on this line asks for a positive extra repayment in a
    /// month of the first year, which the policy forbids.
    PolicyViolation { line: usize },
}

/// Why a single record was rejected.
#[derive(Clone, Copy, Debug, PartialEq, Eq, Structural)]
pub enum RecordFault {
    /// No comma, or an unparseable month or amount.
    Malformed,
    /// A positive amount in a month before the twelfth.
    FirstYear,
}

/// ASCII whitespace, as trimmed from the two fields of a record.
pub open spec fn is_ws(b: u8) -> bool {
    b == 32 || b == 9 || b == 13 || b == 10
}

/// The first index at or after `from` holding a non-whitespace byte
/// (`s.len()` if there is none).
pub open spec fn skip_ws(s: Seq<u8>, from: nat) -> nat
    decreases s.len() - from when from <= s.len()
{
    if from >= s.len() {
        s.len()
    } else if is_ws(s[from as int]) {
        skip_ws(s, from + 1)
    } else {
        from
    }
}

/// One past the last non-whitespace byte strictly before `upto`
/// (`0` if there is none).
pub open spec fn rskip_ws(s: Seq<u8>, upto: nat) -> nat
    decreases upto,
{
    if upto == 0 {
        0
    } else if is_ws(s[upto - 1]) {
        rskip_ws(s, (upto - 1) as nat)
    } else {
        upto
    }
}

/// The sequence with leading and trailing whitespace removed.
pub open spec fn trim_spec(s: Seq<u8>) -> Seq<u8> {
    let lo = skip_ws(s, 0);
    let hi = rskip_ws(s, s.len());
    if lo >= hi {
        Seq::empty()
    } else {
        s.subrange(lo as int, hi as int)
    }
}

/// The first index at or after `from` holding a comma, if any.
pub open spec fn find_comma(s: Seq<u8>, from: nat) -> Option<nat>
    decreases s.len() - from when from <= s.len()
{
    if from >= s.len() {
        None
    } else if s[from as int] == 44 {
        Some(from)
    } else {
        find_comma(s, from + 1)
    }
}

/// A nonempty run of ASCII digits.
pub open spec fn is_digits(s: Seq<u8>) -> bool {
    s.len() > 0 && forall|i: int| 0 <= i < s.len() ==> 48 <= #[trigger] s[i] <= 57
}

/// The number denoted by a run of ASCII digits.
pub open spec fn digits_val(s: Seq<u8>) -> nat
    decreases s.len(),
{
    if s.len() == 0 {
        0
    } else {
        (digits_val(s.drop_last()) * 10 + (s.last() - 48)) as nat
    }
}

/// The month field of a record: a digit string whose value fits `u64`.
pub open spec fn month_of(s: Seq<u8>) -> Option<int> {
    if is_digits(s) && digits_val(s) < 0x10000000000000000 {
        Some(digits_val(s) as int)
    } else {
        None
    }
}

/// The trimmed text before the first comma of a record.
pub open spec fn month_field(line: Seq<u8>) -> Option<Seq<u8>> {
    match find_comma(line, 0) {
        Option::None => Option::None,
        Option::Some(c) => Option::Some(trim_spec(line.subrange(0, c as int))),
    }
}

/// The trimmed text between the first comma and the second comma (or the
/// end) of a record.
pub open spec fn amount_field(line: Seq<u8>) -> Option<Seq<u8>> {
    match find_comma(line, 0) {
        Option::None => Option::None,
        Option::Some(c) => {
            let end: int = match find_comma(line, c + 1) {
                Option::None => line.len() as int,
                Option::Some(c2) => c2 as int,
            };
            Option::Some(trim_spec(line.subrange(c as int + 1, end)))
        },
    }
}

/// What one record contributes to the table: its month and its amount
/// scaled by ten thousand, or the fault that rejects it.
pub open spec fn record_of(line: Seq<u8>) -> Result<(int, (int, int)), RecordFault> {
    match month_field(line) {
        Option::None => Result::Err(RecordFault::Malformed),
        Option::Some(mf) => match month_of(mf) {
            Option::None => Result::Err(RecordFault::Malformed),
            Option::Some(month) => match parse_dec_of(amount_field(line).unwrap()) {
                Option::None => Result::Err(RecordFault::Malformed),
                Option::Some(amount) => if month < 12 && val28(amount) > 0 {
                    Result::Err(RecordFault::FirstYear)
                } else {
                    match mul_of(amount, (10000, 0)) {
                        Option::None => Result::Err(RecordFault::Malformed),
                        Option::Some(scaled) => Result::Ok((month, scaled)),
                    }
                },
            },
        },
    }
}

/// The table the whole schedule denotes: each record's scaled amount under
/// its month, later records overriding earlier ones; or the error of the
/// first rejected record.
pub open spec fn table_of(lines: Seq<Seq<u8>>) -> Result<Map<u64, (int, int)>, OverrideError>
    decreases lines.len(),
{
    if lines.len() == 0 {
        Result::Ok(Map::empty())
    } else {
        match table_of(lines.drop_last()) {
            Result::Err(e) => Result::Err(e),
            Result::Ok(m) => match record_of(lines.last()) {
                Result::Err(RecordFault::Malformed) => Result::Err(OverrideError::ParseError {
                    line: (lines.len() - 1) as usize,
                }),
                Result::Err(RecordFault::FirstYear) => Result::Err(OverrideError::PolicyViolation {
                    line: (lines.len() - 1) as usize,
                }),
                Result::Ok(rec) => Result::Ok(m.insert(rec.0 as u64, rec.1)),
            },
        }
    }
}

/// Parse a digit string into a `u64`; `None` on any non-digit, an empty
/// string, or a value that does not fit.
pub fn parse_u64(s: &[u8]) -> (r: Option<u64>)
    ensures
        r matches Some(v) ==> month_of(s@) == Some(v as int),
        r is None ==> month_of(s@) is None,
{
    if s.len() == 0 {
        return None;
    }
    let mut acc: u64 = 0;
    let mut i: usize = 0;
    while i < s.len()
        invariant
            0 < s.len(),
            0 <= i <= s@.len(),
            forall|j: int| 0 <= j < i ==> 48 <= #[trigger] s@[j] <= 57,
            acc == digits_val(s@.subrange(0, i as int)),
        decreases s@.len() - i,
    {
        let b = *vstd::slice::slice_index_get(s, i);
        if b < 48 || b > 57 {
            return None;
        }
        let d: u64 = (b - 48) as u64;
        if acc > (u64::MAX - d) / 10 {
            proof {
                vstd::arithmetic::div_mod::lemma_fundamental_div_mod((u64::MAX - d) as int, 10);
                if is_digits(s@) {
                    lemma_overflow_means_large(s@, i as nat, acc as nat, d as nat);
                }
            }
            return None;
        }
        proof {
            vstd::arithmetic::div_mod::lemma_fundamental_div_mod((u64::MAX - d) as int, 10);
            assert(s@.subrange(0, i as int + 1).drop_last() =~= s@.subrange(0, i as int));
        }
        acc = acc * 10 + d;
        i = i + 1;
    }
    proof {
        assert(s@.subrange(0, s@.len() as int) =~= s@);
    }
    Some(acc)
}

/// A digit prefix never exceeds the whole digit string's value.
proof fn lemma_digits_prefix_le(s: Seq<u8>, k: nat)
    requires
        k <= s.len(),
        forall|i: int| 0 <= i < s.len() ==> 48 <= #[trigger] s[i] <= 57,
    ensures
        digits_val(s.subrange(0, k as int)) <= digits_val(s),
    decreases s.len(),
{
    if k < s.len() {
        assert(s.drop_last().subrange(0, k as int) =~= s.subrange(0, k as int));
        lemma_digits_prefix_le(s.drop_last(), k);
    } else {
        assert(s.subrange(0, k as int) =~= s);
    }
}

/// If extending the accumulator by one digit overflows `u64`, the whole
/// digit string's value does not fit `u64`.
proof fn lemma_overflow_means_large(s: Seq<u8>, i: nat, acc: nat, d: nat)
    requires
        i < s.len(),
        forall|j: int| 0 <= j < s.len() ==> 48 <= #[trigger] s[j] <= 57,
        acc == digits_val(s.subrange(0, i as int)),
        d == s[i as int] - 48,
        acc * 10 + d > u64::MAX,
    ensures
        digits_val(s) >= 0x10000000000000000,
{
    assert(s.subrange(0, i as int + 1).drop_last() =~= s.subrange(0, i as int));
    assert(s.subrange(0, i as int + 1).last() == s[i as int]);
    assert(digits_val(s.subrange(0, i as int + 1)) == acc * 10 + d);
    lemma_digits_prefix_le(s, i + 1);
}

/// The extra-repayment schedule: scaled amounts keyed by month.
pub struct Repays(HashMap<u64, Dec>);

impl Repays {
    /// The table as a map from months to (mantissa, scale) pairs.
    pub closed spec fn view(&self) -> Map<u64, (int, int)> {
        self.0@.map_values(|d: Dec| dv(d))
    }

    /// Every stored amount is a well-formed decimal.
    pub closed spec fn wf(&self) -> bool {
        forall|k: u64| self.0@.dom().contains(k) ==> dec_wf(#[trigger] self.0@[k])
    }

    /// Parse a schedule, one record per line, into the override table.
    ///
    /// Returns exactly the table the lines denote, or the error of the
    /// first rejected record: `ParseError` for a malformed record,
    /// `PolicyViolation` for a positive amount in a month before the
    /// twelfth.
    pub fn new(lines: &Vec<Vec<u8>>) -> (r: Result<Repays, OverrideError>)
        ensures
            match r {
                Result::Ok(t) => t.wf() && table_of(lines@.map_values(|l: Vec<u8>| l@))
                    == Result::<Map<u64, (int, int)>, OverrideError>::Ok(t@),
                Result::Err(e) => table_of(lines@.map_values(|l: Vec<u8>| l@))
                    == Result::<Map<u64, (int, int)>, OverrideError>::Err(e),
            },
    {
        let ghost all = lines@.map_values(|l: Vec<u8>| l@);
        let mut table: HashMap<u64, Dec> = HashMap::new();
        proof {
            assert(all.subrange(0, 0) =~= Seq::<Seq<u8>>::empty());
            assert(table@.map_values(|d: Dec| dv(d)) =~= Map::<u64, (int, int)>::empty());
        }
        let mut i: usize = 0;
        while i < lines.len()
            invariant
                0 <= i <= lines@.len(),
                all == lines@.map_values(|l: Vec<u8>| l@),
                all.len() == lines@.len(),
                forall|j: int| 0 <= j < lines@.len() ==> all[j] == #[trigger] lines@[j]@,
                table_of(all.subrange(0, i as int)) == Result::<Map<u64, (int, int)>, OverrideError>::Ok(
                    table@.map_values(|d: Dec| dv(d)),
                ),
                forall|k: u64| table@.dom().contains(k) ==> dec_wf(#[trigger] table@[k]),
                vstd::std_specs::hash::obeys_key_model::<u64>(),
            decreases lines@.len() - i,
        {
            let line = &lines[i];
            match parse_record(line) {
                Result::Ok((month, amount)) => {
                    let ghost prefix = all.subrange(0, i as int);
                    let ghost old_view = table@.map_values(|d: Dec| dv(d));
                    table.insert(month, amount);
                    proof {
                        assert(all.subrange(0, i as int + 1).drop_last() =~= prefix);
                        assert(all.subrange(0, i as int + 1).last() == all[i as int]);
                        assert(table@.map_values(|d: Dec| dv(d)) =~= old_view.insert(
                            month,
                            dv(amount),
                        ));
                    }
                },
                Result::Err(RecordFault::Malformed) => {
                    proof {
                        lemma_table_error(all, i as nat);
                    }
                    return Result::Err(OverrideError::ParseError { line: i });
                },
                Result::Err(RecordFault::FirstYear) => {
                    proof {
                        lemma_table_error(all, i as nat);
                    }
                    return Result::Err(OverrideError::PolicyViolation { line: i });
                },
            }
            i = i + 1;
        }
        proof {
            assert(all.subrange(0, all.len() as int) =~= all);
        }
        Result::Ok(Repays(table))
    }

    /// The scheduled extra repayment of a month, if the table has one.
    pub fn lookup(&self, month: u64) -> (r: Option<Dec>)
        requires
            self.wf(),
        ensures
            r is Some <==> self@.contains_key(month),
            r matches Some(d) ==> dec_wf(d) && dv(d) == self@[month],
    {
        match self.0.get(&month) {
            Option::Some(d) => Option::Some(*d),
            Option::None => Option::None,
        }
    }
}

/// A table whose prefix is intact fails on its first rejected record.
proof fn lemma_table_error(all: Seq<Seq<u8>>, i: nat)
    requires
        i < all.len(),
        table_of(all.subrange(0, i as int)) is Ok,
        record_of(all[i as int]) is Err,
    ensures
        table_of(all) == if record_of(all[i as int]) == Result::<(int, (int, int)), RecordFault>::Err(
            RecordFault::Malformed,
        ) {
            Result::<Map<u64, (int, int)>, OverrideError>::Err(OverrideError::ParseError {
                line: i as usize,
            })
        } else {
            Result::<Map<u64, (int, int)>, OverrideError>::Err(OverrideError::PolicyViolation {
                line: i as usize,
            })
        },
    decreases all.len(),
{
    if i + 1 == all.len() {
        assert(all.subrange(0, i as int) =~= all.drop_last());
        assert(all.last() == all[i as int]);
    } else {
        assert(all.drop_last().subrange(0, i as int) =~= all.subrange(0, i as int));
        lemma_table_error(all.drop_last(), i);
        assert(all.drop_last()[i as int] == all[i as int]);
    }
}

/// Parse one `month, amount` record: the month and the amount scaled by
/// ten thousand, or the fault that rejects the record.
pub fn parse_record(line: &Vec<u8>) -> (r: Result<(u64, Dec), RecordFault>)
    ensures
        match r {
            Result::Ok((month, amount)) => dec_wf(amount) && record_of(line@)
                == Result::<(int, (int, int)), RecordFault>::Ok((month as int, dv(amount))),
            Result::Err(f) => record_of(line@) == Result::<(int, (int, int)), RecordFault>::Err(f),
        },
{
    let s = line.as_slice();
    let n = line.len();
    let c1 = match find_comma_exec(s, 0) {
        Option::Some(c) => c,
        Option::None => {
            return Result::Err(RecordFault::Malformed);
        },
    };
    assert(c1 < n);
    let c2 = match find_comma_exec(s, c1 + 1) {
        Option::Some(c) => c,
        Option::None => line.len(),
    };
    let mf = trimmed(s, 0, c1);
    let af = trimmed(s, c1 + 1, c2);
    let month = match parse_u64(mf) {
        Option::Some(m) => m,
        Option::None => {
            return Result::Err(RecordFault::Malformed);
        },
    };
    let amount = match dec_parse(af) {
        Option::Some(a) => a,
        Option::None => {
            return Result::Err(RecordFault::Malformed);
        },
    };
    if month < 12 && amount.m > 0 {
        proof {
            lemma_val28_sign(dv(amount));
        }
        return Result::Err(RecordFault::FirstYear);
    }
    proof {
        lemma_val28_sign(dv(amount));
    }
    let ten_thousand = Dec { m: 10000, s: 0 };
    match dec_mul(amount, ten_thousand) {
        Option::Some(scaled) => Result::Ok((month, scaled)),
        Option::None => Result::Err(RecordFault::Malformed),
    }
}

/// The first comma at or after `from`, as the spec `find_comma` names it.
fn find_comma_exec(s: &[u8], from: usize) -> (r: Option<usize>)
    requires
        from <= s@.len(),
    ensures
        match r {
            Option::Some(c) => find_comma(s@, from as nat) == Option::Some(c as nat)
                && from <= c < s@.len(),
            Option::None => find_comma(s@, from as nat) is None,
        },
{
    let mut i: usize = from;
    while i < s.len()
        invariant
            from <= i <= s@.len(),
            find_comma(s@, from as nat) == find_comma(s@, i as nat),
        decreases s@.len() - i,
    {
        if *vstd::slice::slice_index_get(s, i) == 44 {
            return Option::Some(i);
        }
        i = i + 1;
    }
    Option::None
}

/// Whether the byte at `i` is ASCII whitespace, as the spec `is_ws` names it.
fn ws_at(s: &[u8], i: usize) -> (r: bool)
    requires
        i < s@.len(),
    ensures
        r == is_ws(s@[i as int]),
{
    let b = *vstd::slice::slice_index_get(s, i);
    b == 32 || b == 9 || b == 13 || b == 10
}

/// The slice `s[from..to]` with surrounding whitespace removed, as the
/// spec `trim_spec` names it on the corresponding subrange.
fn trimmed<'a>(s: &'a [u8], from: usize, to: usize) -> (r: &'a [u8])
    requires
        from <= to <= s@.len(),
    ensures
        r@ == trim_spec(s@.subrange(from as int, to as int)),
{
    let ghost sub = s@.subrange(from as int, to as int);
    let mut lo: usize = from;
    while lo < to && ws_at(s, lo)
        invariant
            from <= lo <= to <= s@.len(),
            sub == s@.subrange(from as int, to as int),
            skip_ws(sub, 0) == skip_ws(sub, (lo - from) as nat),
            forall|j: int| 0 <= j < lo - from ==> is_ws(#[trigger] sub[j]),
        decreases to - lo,
    {
        proof {
            assert(sub[(lo - from) as int] == s@[lo as int]);
        }
        lo = lo + 1;
    }
    proof {
        if lo < to {
            assert(sub[(lo - from) as int] == s@[lo as int]);
            assert(skip_ws(sub, (lo - from) as nat) == (lo - from) as nat);
        } else {
            assert(skip_ws(sub, (lo - from) as nat) == sub.len());
        }
    }
    let mut hi: usize = to;
    while hi > lo && ws_at(s, hi - 1)
        invariant
            from <= lo <= hi <= to <= s@.len(),
            sub == s@.subrange(from as int, to as int),
            rskip_ws(sub, sub.len()) == rskip_ws(sub, (hi - from) as nat),
            skip_ws(sub, 0) == (lo - from) as nat,
            forall|j: int| 0 <= j < lo - from ==> is_ws(#[trigger] sub[j]),
        decreases hi - lo,
    {
        proof {
            assert(sub[(hi - 1 - from) as int] == s@[hi as int - 1]);
        }
        hi = hi - 1;
    }
    proof {
        if hi > lo {
            assert(sub[(hi - 1 - from) as int] == s@[hi as int - 1]);
            assert(rskip_ws(sub, (hi - from) as nat) == (hi - from) as nat);
            assert(trim_spec(sub) == sub.subrange((lo - from) as int, (hi - from) as int));
        } else {
            lemma_rskip_all_ws(sub, (lo - from) as nat);
            assert(trim_spec(sub) =~= sub.subrange((lo - from) as int, (hi - from) as int));
        }
        assert(sub.subrange((lo - from) as int, (hi - from) as int) =~= s@.subrange(
            lo as int,
            hi as int,
        ));
    }
    vstd::slice::slice_subrange(s, lo, hi)
}

/// Scanning back over nothing but whitespace reaches the start.
proof fn lemma_rskip_all_ws(s: Seq<u8>, upto: nat)
    requires
        upto <= s.len(),
        forall|j: int| 0 <= j < upto ==> is_ws(#[trigger] s[j]),
    ensures
        rskip_ws(s, upto) == 0,
    decreases upto,
{
    if upto > 0 {
        lemma_rskip_all_ws(s, (upto - 1) as nat);
    }
}

} // verus!
