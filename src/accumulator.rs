use vstd::prelude::*;

verus! {

/// Scale applied to the per-share accumulator so that integer division keeps
/// twelve decimal digits of precision.
pub const ACC_REWARD_MULTIPLIER: u128 = 1_000_000_000_000;

/// `a * b`, clamped to `u128::MAX`.
pub open spec fn sat_mul(a: int, b: int) -> int {
    if a * b > u128::MAX { u128::MAX as int } else { a * b }
}

/// `a + b`, clamped to `u128::MAX`.
pub open spec fn sat_add(a: int, b: int) -> int {
    if a + b > u128::MAX { u128::MAX as int } else { a + b }
}

/// `a - b`, clamped at zero.
pub open spec fn sat_sub(a: int, b: int) -> int {
    if a < b { 0 } else { a - b }
}

pub open spec fn min(a: int, b: int) -> int {
    if a <= b { a } else { b }
}

/// Whole sessions of length `interval` between `last` and `now` (none when
/// `now` lies before `last`).
pub open spec fn sessions_elapsed(last: u64, now: u64, interval: u64) -> int
    recommends
        interval > 0,
{
    if now < last { 0 } else { (now - last) / (interval as int) }
}

/// What one slot hands out over `sessions` sessions: the nominal emission,
/// capped by what is left in the pool.
pub open spec fn slot_distribution(sessions: int, rate: u128, remaining: u128) -> int {
    min(sat_mul(sessions, rate as int), remaining as int)
}

/// Scaled credit per unit of stake for `distributed` spread over `total_staked`.
pub open spec fn share_increment(distributed: int, total_staked: u128) -> int
    recommends
        total_staked > 0,
{
    sat_mul(distributed, ACC_REWARD_MULTIPLIER as int) / (total_staked as int)
}

/// Accumulator value after `distributed` was spread over `total_staked`.
pub open spec fn next_share(share: u128, distributed: int, total_staked: u128) -> int {
    sat_add(share as int, share_increment(distributed, total_staked))
}

/// Credit earned by `amount` units of stake while the accumulator moved from
/// `debt` to `share`, unscaled.
pub open spec fn pending_reward(amount: u128, share: u128, debt: u128) -> int {
    sat_mul(amount as int, sat_sub(share as int, debt as int)) / (ACC_REWARD_MULTIPLIER as int)
}

/// Saturating product of two `u128`.
pub fn mul_sat(a: u128, b: u128) -> (r: u128)
    ensures
        r == sat_mul(a as int, b as int),
{
    match a.checked_mul(b) {
        Some(p) => p,
        None => u128::MAX,
    }
}

/// One reward slot of one catch-up over `sessions` sessions: returns the new
/// accumulator value and the new pool.
pub fn distribute_slot(
    sessions: u64,
    rate: u128,
    remaining: u128,
    share: u128,
    total_staked: u128,
) -> (r: (u128, u128))
    requires
        total_staked > 0,
    ensures
        r.0 == next_share(share, slot_distribution(sessions as int, rate, remaining), total_staked),
        r.1 == remaining - slot_distribution(sessions as int, rate, remaining),
{
    let potential = mul_sat(sessions as u128, rate);
    let distributed = if potential > remaining {
        remaining
    } else {
        potential
    };
    let inc = mul_sat(distributed, ACC_REWARD_MULTIPLIER) / total_staked;
    (share.saturating_add(inc), remaining - distributed)
}

/// Credit earned by `amount` units of stake since the accumulator stood at
/// `debt`, given that it now stands at `share`.
pub fn calculate_pending(amount: u128, share: u128, debt: u128) -> (r: u128)
    ensures
        r == pending_reward(amount, share, debt),
{
    let diff = share.saturating_sub(debt);
    mul_sat(amount, diff) / ACC_REWARD_MULTIPLIER
}

} // verus!
