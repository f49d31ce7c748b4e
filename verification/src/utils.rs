//! Calendar helpers on plain timestamps.

use vstd::prelude::*;

verus! {

/// Seconds east of UTC for Hong Kong time.
pub const HKT_OFFSET_SECONDS: i64 = 28_800;

/// Seconds per civil day.
pub const DAY_SECONDS: i64 = 86_400;

/// The civil day number (days since the epoch) of a Unix timestamp read in
/// Hong Kong time.
pub open spec fn hkt_day_number(t: int) -> int {
    (t + HKT_OFFSET_SECONDS) / (DAY_SECONDS as int)
}

/// Whether the two Unix timestamps (in seconds) fall on the same calendar
/// date in Hong Kong time.
pub fn is_same_date_in_hkt(a: i64, b: i64) -> (r: bool)
    requires
        i64::MIN + HKT_OFFSET_SECONDS <= a,
        i64::MIN + HKT_OFFSET_SECONDS <= b,
        a <= i64::MAX - HKT_OFFSET_SECONDS,
        b <= i64::MAX - HKT_OFFSET_SECONDS,
    ensures
        r == (hkt_day_number(a as int) == hkt_day_number(b as int)),
{
    floor_day(a) == floor_day(b)
}

/// Floor division of a shifted timestamp by the day length.
fn floor_day(t: i64) -> (r: i64)
    requires
        i64::MIN + HKT_OFFSET_SECONDS <= t <= i64::MAX - HKT_OFFSET_SECONDS,
    ensures
        r == hkt_day_number(t as int),
{
    let m: i64 = t + HKT_OFFSET_SECONDS;
    let q: i64 = m / DAY_SECONDS;
    if m % DAY_SECONDS != 0 && m < 0 {
        proof {
            let dd = DAY_SECONDS as int;
            let p = -(m as int);
            let qq = p / dd;
            let rr = p % dd;
            vstd::arithmetic::div_mod::lemma_fundamental_div_mod(p, dd);
            assert((-qq - 1) * dd + (dd - rr) == -(dd * qq + rr)) by (nonlinear_arith);
            vstd::arithmetic::div_mod::lemma_fundamental_div_mod_converse(
                m as int,
                dd,
                -qq - 1,
                dd - rr,
            );
        }
        q - 1
    } else {
        proof {
            if m < 0 {
                let dd = DAY_SECONDS as int;
                let p = -(m as int);
                let qq = p / dd;
                let rr = p % dd;
                vstd::arithmetic::div_mod::lemma_fundamental_div_mod(p, dd);
                assert((-qq) * dd + rr == -(dd * qq) + rr) by (nonlinear_arith);
                vstd::arithmetic::div_mod::lemma_fundamental_div_mod_converse(m as int, dd, -qq, rr);
            }
        }
        q
    }
}

} // verus!
