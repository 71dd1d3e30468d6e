//! Whole-day arithmetic on UTC timestamps measured in seconds since the
//! Unix epoch. Days are counted by flooring, so a due time 90000 seconds
//! ahead of "now" is 1 day away and one 1 second in the past is -1 days.

use vstd::prelude::*;
use vstd::arithmetic::div_mod::{
    lemma_div_is_ordered,
    lemma_fundamental_div_mod,
    lemma_fundamental_div_mod_converse,
};

verus! {

/// Seconds in one UTC day.
pub const SECS_PER_DAY: u64 = 86400;

/// Number of whole days from `now` up to `due`: the mathematical floor of
/// `(due - now) / 86400`, negative once `due` lies a day or more in the past.
pub open spec fn spec_days_between(due: int, now: int) -> int {
    (due - now) / (SECS_PER_DAY as int)
}

/// The UTC calendar day that the timestamp `t` falls on, counted in whole
/// days since the Unix epoch.
pub open spec fn spec_epoch_day(t: int) -> int {
    t / (SECS_PER_DAY as int)
}

/// For timestamps that fit in 64 bits, the whole-day distance fits in 64
/// bits as well.
pub proof fn lemma_days_between_in_range(due: int, now: int)
    requires
        -0x8000_0000_0000_0000 <= due < 0x8000_0000_0000_0000,
        -0x8000_0000_0000_0000 <= now < 0x8000_0000_0000_0000,
    ensures
        -0x8000_0000_0000_0000 <= spec_days_between(due, now) < 0x8000_0000_0000_0000,
{
    lemma_div_is_ordered(-0x1_0000_0000_0000_0000, due - now, SECS_PER_DAY as int);
    lemma_div_is_ordered(due - now, 0x1_0000_0000_0000_0000, SECS_PER_DAY as int);
}

/// Floor of `(due - now) / 86400` for any pair of 64-bit timestamps.
pub fn days_between(due: i64, now: i64) -> (d: i64)
    ensures
        d == spec_days_between(due as int, now as int),
{
    if due >= now {
        let diff: u128 = (due as i128 - now as i128) as u128;
        let q: u128 = diff / (SECS_PER_DAY as u128);
        proof {
            assert(diff == due - now);
            assert(q as int == (due - now) / (SECS_PER_DAY as int));
            assert(q <= diff);
        }
        q as i64
    } else {
        let diff: u128 = (now as i128 - due as i128) as u128;
        let q: u128 = diff / (SECS_PER_DAY as u128);
        let r: u128 = diff % (SECS_PER_DAY as u128);
        let qc: u128 = if r == 0 { q } else { q + 1 };
        proof {
            assert(diff == now - due);
            assert(q as int == diff as int / (SECS_PER_DAY as int));
            assert(r as int == diff as int % (SECS_PER_DAY as int));
            lemma_fundamental_div_mod(diff as int, SECS_PER_DAY as int);
            if r == 0 {
                lemma_fundamental_div_mod_converse(
                    due - now,
                    SECS_PER_DAY as int,
                    -(q as int),
                    0,
                );
            } else {
                lemma_fundamental_div_mod_converse(
                    due - now,
                    SECS_PER_DAY as int,
                    -(q as int) - 1,
                    SECS_PER_DAY - (r as int),
                );
            }
            assert(qc as int <= diff as int / (SECS_PER_DAY as int) + 1 < 0x8000_0000_0000_0000);
        }
        0i64 - (qc as i64)
    }
}

/// The UTC calendar day of `t` as whole days since the Unix epoch:
/// the mathematical floor of `t / 86400`.
pub fn epoch_day(t: i64) -> (d: i64)
    ensures
        d == spec_epoch_day(t as int),
{
    days_between(t, 0)
}

} // verus!
