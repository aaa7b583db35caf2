use vstd::prelude::*;

use crate::contract::{ChildFarmingContract, TransferModel};
use crate::farm::{FarmModel, FarmStatus};

verus! {

/// A catch-up never lowers an accumulator, and keeps one per slot.
pub proof fn lemma_catch_up_monotone(f: FarmModel, now: u64)
    requires
        f.wf(),
    ensures
        f.caught_up(now).reward_per_share.len() == f.reward_per_share.len(),
        forall|i: int|
            0 <= i < f.reward_per_share.len() ==> #[trigger] f.caught_up(now).reward_per_share[i]
                >= f.reward_per_share[i],
{
}

/// Catching up twice at the same instant leaves the farm as the first
/// catch-up left it.
pub proof fn lemma_catch_up_idempotent(f: FarmModel, now: u64)
    requires
        f.wf(),
    ensures
        f.caught_up(now).caught_up(now) == f.caught_up(now),
{
    let g = f.caught_up(now);
    if f.distributes_at(now) {
        let s = f.sessions_at(now);
        let elapsed = now - f.last_distribution;
        assert(s * f.session_interval <= elapsed) by (nonlinear_arith)
            requires
                s == elapsed / (f.session_interval as int),
                f.session_interval > 0,
                elapsed >= 0,
        ;
        assert(elapsed - s * f.session_interval < f.session_interval) by (nonlinear_arith)
            requires
                s == elapsed / (f.session_interval as int),
                f.session_interval > 0,
                elapsed >= 0,
        ;
        assert(g.last_distribution == f.last_distribution + s * f.session_interval);
        assert(g.sessions_at(now) == 0) by {
            let e2 = now - g.last_distribution;
            assert(0 <= e2 < g.session_interval);
            assert(e2 / (g.session_interval as int) == 0) by (nonlinear_arith)
                requires
                    0 <= e2 < g.session_interval,
            ;
        }
    }
}

/// An ended farm stays ended and a catch-up leaves it untouched.
pub proof fn lemma_ended_is_terminal(f: FarmModel, now: u64)
    requires
        f.status == FarmStatus::Ended,
    ensures
        f.caught_up(now) == f,
{
}

/// A catch-up that runs the accumulator ends the farm exactly when it
/// leaves every reward pool empty.
pub proof fn lemma_exhaustion_ends_farm(f: FarmModel, now: u64)
    requires
        f.wf(),
        f.distributes_at(now),
    ensures
        f.caught_up(now).status == FarmStatus::Ended <==> f.caught_up(now).exhausted(),
{
}

/// A farm that has ended takes no new stake.
pub proof fn lemma_no_stake_after_exhaustion(
    c: ChildFarmingContract,
    farm_id: u64,
    token: Seq<char>,
    sender: Seq<char>,
    byte_cost: u128,
)
    requires
        farm_id < c.farm_count,
        c.farm(farm_id as int).status == FarmStatus::Ended,
    ensures
        c.stake_check(farm_id, token, sender, byte_cost) == Err::<(), crate::contract::FarmError>(
            crate::contract::FarmError::FarmEnded,
        ),
{
}

/// Staking more never brings a lockup forward.
pub proof fn lemma_lockup_never_shortens(
    c: ChildFarmingContract,
    farm_id: u64,
    amount: u128,
    sender: Seq<char>,
    now: u64,
)
    requires
        c.stake(sender, farm_id) is Some,
    ensures
        c.stake_after(farm_id, amount, sender, now).lockup_end >= c.stake(
            sender,
            farm_id,
        )->0.lockup_end,
{
}


/// No accumulator of any farm of `old` is lower in `new`.
pub open spec fn shares_kept(old: ChildFarmingContract, new: ChildFarmingContract) -> bool {
    &&& new.farm_count >= old.farm_count
    &&& forall|h: int, j: int|
        0 <= h < old.farm_count && 0 <= j < old.farm(h).reward_per_share.len() ==> #[trigger] new.farm(
            h,
        ).reward_per_share[j] >= old.farm(h).reward_per_share[j]
}

proof fn lemma_caught_up_farm_kept(
    old: ChildFarmingContract,
    new: ChildFarmingContract,
    farm_id: u64,
    now: u64,
)
    requires
        old.wf(),
        farm_id < old.farm_count,
        new.farm(farm_id as int).reward_per_share == old.farm(farm_id as int).caught_up(
            now,
        ).reward_per_share,
        forall|j: int|
            0 <= j < old.farms@.len() && j != farm_id ==> #[trigger] new.farms@[j] == old.farms@[j],
        new.farm_count == old.farm_count,
    ensures
        shares_kept(old, new),
{
    lemma_catch_up_monotone(old.farm(farm_id as int), now);
    assert forall|h: int, j: int|
        0 <= h < old.farm_count && 0 <= j < old.farm(h).reward_per_share.len() implies #[trigger] new.farm(
            h,
        ).reward_per_share[j] >= old.farm(h).reward_per_share[j] by {
        if h != farm_id {
            assert(new.farms@[h] == old.farms@[h]);
        }
    }
}

/// A stake never lowers an accumulator.
pub proof fn lemma_stake_keeps_shares(
    old: ChildFarmingContract,
    new: ChildFarmingContract,
    farm_id: u64,
    token: Seq<char>,
    amount: u128,
    sender: Seq<char>,
    now: u64,
    byte_cost: u128,
    r: Result<(), crate::contract::FarmError>,
)
    requires
        old.wf(),
        old.stake_post(new, farm_id, token, amount, sender, now, byte_cost, r),
    ensures
        shares_kept(old, new),
{
    if old.stake_check(farm_id, token, sender, byte_cost) is Ok {
        lemma_caught_up_farm_kept(old, new, farm_id, now);
    }
}

/// Funding never lowers an accumulator.
pub proof fn lemma_add_reward_keeps_shares(
    old: ChildFarmingContract,
    new: ChildFarmingContract,
    farm_id: u64,
    token: Seq<char>,
    amount: u128,
    r: Result<(), crate::contract::FarmError>,
)
    requires
        old.wf(),
        old.reward_post(new, farm_id, token, amount, r),
    ensures
        shares_kept(old, new),
{
    if old.reward_check(farm_id, token) is Ok {
        assert forall|h: int, j: int|
            0 <= h < old.farm_count && 0 <= j < old.farm(h).reward_per_share.len() implies #[trigger] new.farm(
                h,
            ).reward_per_share[j] >= old.farm(h).reward_per_share[j] by {
            if h != farm_id {
                assert(new.farms@[h] == old.farms@[h]);
            }
        }
    }
}

/// A claim never lowers an accumulator.
pub proof fn lemma_claim_keeps_shares(
    old: ChildFarmingContract,
    new: ChildFarmingContract,
    farm_id: u64,
    user: Seq<char>,
    now: u64,
    sent: Seq<TransferModel>,
)
    requires
        old.wf(),
        old.claim_check(farm_id, user) is Ok,
        old.claim_post(new, farm_id, user, now, sent),
    ensures
        shares_kept(old, new),
{
    lemma_caught_up_farm_kept(old, new, farm_id, now);
}

/// A withdrawal never lowers an accumulator.
pub proof fn lemma_withdraw_keeps_shares(
    old: ChildFarmingContract,
    new: ChildFarmingContract,
    farm_id: u64,
    user: Seq<char>,
    amount: u128,
    now: u64,
    sent: TransferModel,
)
    requires
        old.wf(),
        old.withdraw_check(farm_id, user, amount, now) is Ok,
        old.withdraw_post(new, farm_id, user, amount, now, sent),
    ensures
        shares_kept(old, new),
{
    lemma_caught_up_farm_kept(old, new, farm_id, now);
}

} // verus!
