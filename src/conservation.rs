use vstd::prelude::*;

use crate::accumulator::{pending_reward, sat_sub, ACC_REWARD_MULTIPLIER};
use crate::contract::ChildFarmingContract;
use crate::farm::FarmModel;
use crate::ledger::{
    find_stake, record_written, rewritten_at, stake_key_at, swap_removed,
    unique_stakes, StakeEntry,
};
use crate::stake::StakeModel;

verus! {

/// Sum of `t` over the records of `s`.
pub open spec fn sum_of(s: Seq<StakeEntry>, t: spec_fn(StakeEntry) -> int) -> int
    decreases s.len(),
{
    if s.len() == 0 {
        0
    } else {
        sum_of(s.drop_last(), t) + t(s.last())
    }
}

/// Scaled claim of a stake on slot `slot` while the accumulator stands at
/// `share`: its settled credit, times the multiplier, plus what its
/// principal earned since its debt baseline.
pub open spec fn model_claim(m: StakeModel, slot: int, share: u128) -> int {
    ACC_REWARD_MULTIPLIER * m.accrued_rewards[slot] + m.amount * sat_sub(
        share as int,
        m.reward_debt[slot] as int,
    )
}

pub open spec fn claim_term(farm_id: u64, slot: int, share: u128) -> spec_fn(StakeEntry) -> int {
    |e: StakeEntry|
        if e.farm_id == farm_id {
            model_claim(e.info@, slot, share)
        } else {
            0
        }
}

pub open spec fn stake_term(farm_id: u64) -> spec_fn(StakeEntry) -> int {
    |e: StakeEntry|
        if e.farm_id == farm_id {
            e.info@.amount as int
        } else {
            0
        }
}

pub open spec fn owed_term(farm_id: u64, slot: int, share: u128) -> spec_fn(StakeEntry) -> int {
    |e: StakeEntry|
        if e.farm_id == farm_id {
            e.info@.accrued_rewards[slot] + pending_reward(
                e.info@.amount,
                share,
                e.info@.reward_debt[slot],
            )
        } else {
            0
        }
}

/// Scaled claims of every stake in farm `farm_id` on slot `slot`.
pub open spec fn claims(s: Seq<StakeEntry>, farm_id: u64, slot: int, share: u128) -> int {
    sum_of(s, claim_term(farm_id, slot, share))
}

/// Principal staked in farm `farm_id`, summed over its stake records.
pub open spec fn staked(s: Seq<StakeEntry>, farm_id: u64) -> int {
    sum_of(s, stake_term(farm_id))
}

/// What the stakers of farm `farm_id` could claim of slot `slot` if every
/// stake were settled against `share`: accrued plus pending credit.
pub open spec fn owed(s: Seq<StakeEntry>, farm_id: u64, slot: int, share: u128) -> int {
    sum_of(s, owed_term(farm_id, slot, share))
}

/// Slot `slot` of farm `f` (id `farm_id`), with stake records `s`, holds what
/// it owes: with `funded` paid into the slot and `paid` paid out of it, the
/// scaled claims of all stakers plus the undistributed pool fit in what is
/// left, and the records hold no more principal than the farm counts.
pub open spec fn solvent(s: Seq<StakeEntry>, f: FarmModel, farm_id: u64, slot: int, funded: int, paid: int) -> bool {
    &&& claims(s, farm_id, slot, f.reward_per_share[slot]) + ACC_REWARD_MULTIPLIER
        * f.remaining_reward[slot] <= ACC_REWARD_MULTIPLIER * (funded - paid)
    &&& staked(s, farm_id) <= f.total_staked
}

/// The term that the record of (account, farm id) contributes, if there is one.
pub open spec fn key_term(s: Seq<StakeEntry>, account: Seq<char>, farm_id: u64, t: spec_fn(StakeEntry) -> int) -> int {
    if exists|i: int| stake_key_at(s, i, account, farm_id) {
        t(s[choose|i: int| stake_key_at(s, i, account, farm_id)])
    } else {
        0
    }
}

pub proof fn lemma_sum_update(s: Seq<StakeEntry>, k: int, e: StakeEntry, t: spec_fn(StakeEntry) -> int)
    requires
        0 <= k < s.len(),
    ensures
        sum_of(s.update(k, e), t) == sum_of(s, t) - t(s[k]) + t(e),
    decreases s.len(),
{
    let u = s.update(k, e);
    if k == s.len() - 1 {
        assert(u.drop_last() =~= s.drop_last());
    } else {
        lemma_sum_update(s.drop_last(), k, e, t);
        assert(u.drop_last() =~= s.drop_last().update(k, e));
    }
}

pub proof fn lemma_sum_push(s: Seq<StakeEntry>, e: StakeEntry, t: spec_fn(StakeEntry) -> int)
    ensures
        sum_of(s.push(e), t) == sum_of(s, t) + t(e),
{
    assert(s.push(e).drop_last() =~= s);
}

pub proof fn lemma_sum_swap_removed(s: Seq<StakeEntry>, k: int, t: spec_fn(StakeEntry) -> int)
    requires
        0 <= k < s.len(),
    ensures
        sum_of(swap_removed(s, k), t) == sum_of(s, t) - t(s[k]),
{
    lemma_sum_update(s, k, s.last(), t);
}

/// With no negative term, each term is at most the sum.
pub proof fn lemma_sum_ge_term(s: Seq<StakeEntry>, k: int, t: spec_fn(StakeEntry) -> int)
    requires
        0 <= k < s.len(),
        forall|e: StakeEntry| #[trigger] t(e) >= 0,
    ensures
        t(s[k]) <= sum_of(s, t),
        sum_of(s, t) >= 0,
    decreases s.len(),
{
    lemma_sum_nonneg(s.drop_last(), t);
    if k < s.len() - 1 {
        lemma_sum_ge_term(s.drop_last(), k, t);
    }
}

pub proof fn lemma_sum_nonneg(s: Seq<StakeEntry>, t: spec_fn(StakeEntry) -> int)
    requires
        forall|e: StakeEntry| #[trigger] t(e) >= 0,
    ensures
        sum_of(s, t) >= 0,
    decreases s.len(),
{
    if s.len() > 0 {
        lemma_sum_nonneg(s.drop_last(), t);
    }
}

/// The sums over records other than the one of (account, farm id) agree
/// when only that record was written.
pub proof fn lemma_sum_frame(
    old: Seq<StakeEntry>,
    new: Seq<StakeEntry>,
    account: Seq<char>,
    farm_id: u64,
    t: spec_fn(StakeEntry) -> int,
)
    requires
        unique_stakes(old),
        unique_stakes(new),
        record_written(old, new, account, farm_id),
    ensures
        sum_of(new, t) - key_term(new, account, farm_id, t) == sum_of(old, t) - key_term(
            old,
            account,
            farm_id,
            t,
        ),
{
    if exists|k: int|
        #[trigger] stake_key_at(old, k, account, farm_id) && (rewritten_at(old, new, k) || new
            == swap_removed(old, k)) {
        let k = choose|k: int|
            #[trigger] stake_key_at(old, k, account, farm_id) && (rewritten_at(old, new, k) || new
                == swap_removed(old, k));
        let j = choose|i: int| stake_key_at(old, i, account, farm_id);
        assert(old[j] == old[k] || j == k);
        if rewritten_at(old, new, k) {
            lemma_sum_update(old, k, new[k], t);
            assert(stake_key_at(new, k, account, farm_id));
            let jn = choose|i: int| stake_key_at(new, i, account, farm_id);
            assert(new[jn] == new[k] || jn == k);
            if jn != k {
                assert(new[jn].account@ == new[k].account@ && new[jn].farm_id == new[k].farm_id);
            }
        } else {
            lemma_sum_swap_removed(old, k, t);
            let last = old.len() - 1;
            assert forall|i: int| !stake_key_at(new, i, account, farm_id) by {
                if stake_key_at(new, i, account, farm_id) {
                    let si = if i == k { last } else { i };
                    assert(new[i] == old[si]);
                    assert(old[si] == old[si] && old[k] == old[k]);
                }
            }
        }
    } else {
        let n = old.len() as int;
        assert(new =~= old.push(new.last()));
        lemma_sum_push(old, new.last(), t);
        assert(stake_key_at(new, n, account, farm_id));
        let jn = choose|i: int| stake_key_at(new, i, account, farm_id);
        if jn != n {
            assert(new[jn].account@ == new[n].account@ && new[jn].farm_id == new[n].farm_id);
        }
        assert forall|i: int| !stake_key_at(old, i, account, farm_id) by {
            if stake_key_at(old, i, account, farm_id) {
                assert(find_stake(old, account, farm_id) is Some);
            }
        }
    }
}

/// The key term is what the found stake contributes.
pub proof fn lemma_key_term_found(s: Seq<StakeEntry>, account: Seq<char>, farm_id: u64, slot: int, share: u128)
    ensures
        key_term(s, account, farm_id, claim_term(farm_id, slot, share)) == match find_stake(
            s,
            account,
            farm_id,
        ) {
            Some(m) => model_claim(m, slot, share),
            None => 0,
        },
        key_term(s, account, farm_id, stake_term(farm_id)) == match find_stake(s, account, farm_id) {
            Some(m) => m.amount as int,
            None => 0,
        },
{
}


/// Raising the accumulator from `share` to `share2` raises the claims by at
/// most the rise times the principal.
pub proof fn lemma_claims_rise(s: Seq<StakeEntry>, farm_id: u64, slot: int, share: u128, share2: u128)
    requires
        share <= share2,
    ensures
        claims(s, farm_id, slot, share2) <= claims(s, farm_id, slot, share) + (share2 - share)
            * staked(s, farm_id),
    decreases s.len(),
{
    if s.len() > 0 {
        lemma_claims_rise(s.drop_last(), farm_id, slot, share, share2);
        let e = s.last();
        if e.farm_id == farm_id {
            let a = e.info@.amount as int;
            let d = e.info@.reward_debt[slot] as int;
            assert(a * sat_sub(share2 as int, d) <= a * sat_sub(share as int, d) + (share2 - share)
                * a) by (nonlinear_arith)
                requires
                    a >= 0,
                    share <= share2,
                    sat_sub(share2 as int, d) <= sat_sub(share as int, d) + (share2 - share),
            ;
        }
        let rest = staked(s.drop_last(), farm_id);
        let here = stake_term(farm_id)(e);
        assert((share2 - share) * (rest + here) == (share2 - share) * rest + (share2 - share) * here)
            by (nonlinear_arith);
    }
}

/// Settling never raises a stake's claim, and leaves it with no pending part.
pub proof fn lemma_settle_claim(m: StakeModel, slot: int, shares: Seq<u128>)
    requires
        0 <= slot < m.accrued_rewards.len(),
        slot < shares.len(),
    ensures
        model_claim(m.settled(shares), slot, shares[slot]) == ACC_REWARD_MULTIPLIER * m.settled(
            shares,
        ).accrued_rewards[slot],
        ACC_REWARD_MULTIPLIER * m.settled(shares).accrued_rewards[slot] <= model_claim(
            m,
            slot,
            shares[slot],
        ),
{
    let a = m.amount as int;
    let diff = sat_sub(shares[slot] as int, m.reward_debt[slot] as int);
    let p = pending_reward(m.amount, shares[slot], m.reward_debt[slot]);
    let mul = crate::accumulator::sat_mul(a, diff);
    assert(mul <= a * diff) by (nonlinear_arith)
        requires
            mul == crate::accumulator::sat_mul(a, diff),
            a >= 0,
            diff >= 0,
    ;
    assert(ACC_REWARD_MULTIPLIER * p <= mul) by (nonlinear_arith)
        requires
            p == mul / (ACC_REWARD_MULTIPLIER as int),
            mul >= 0,
    ;
    assert(m.settled(shares).accrued_rewards[slot] <= m.accrued_rewards[slot] + p);
    assert(ACC_REWARD_MULTIPLIER * m.settled(shares).accrued_rewards[slot] <= ACC_REWARD_MULTIPLIER
        * m.accrued_rewards[slot] + ACC_REWARD_MULTIPLIER * p) by (nonlinear_arith)
        requires
            m.settled(shares).accrued_rewards[slot] <= m.accrued_rewards[slot] + p,
    ;
}

/// A catch-up keeps a slot solvent.
pub proof fn lemma_catch_up_solvent(
    s: Seq<StakeEntry>,
    f: FarmModel,
    now: u64,
    farm_id: u64,
    slot: int,
    funded: int,
    paid: int,
)
    requires
        f.wf(),
        0 <= slot < f.slots(),
        solvent(s, f, farm_id, slot, funded, paid),
    ensures
        solvent(s, f.caught_up(now), farm_id, slot, funded, paid),
{
    let g = f.caught_up(now);
    if f.distributes_at(now) {
        let dist = f.distributed_at(now, slot);
        let total = f.total_staked as int;
        let mul = crate::accumulator::sat_mul(dist, ACC_REWARD_MULTIPLIER as int);
        let inc = mul / total;
        let share = f.reward_per_share[slot];
        let share2 = g.reward_per_share[slot];
        assert(share2 <= share + inc);
        lemma_claims_rise(s, farm_id, slot, share, share2);
        let st = staked(s, farm_id);
        lemma_sum_nonneg(s, stake_term(farm_id));
        assert(dist >= 0);
        assert(mul <= dist * ACC_REWARD_MULTIPLIER) by (nonlinear_arith)
            requires
                mul == crate::accumulator::sat_mul(dist, ACC_REWARD_MULTIPLIER as int),
                dist >= 0,
        ;
        assert((share2 - share) * st <= inc * total) by (nonlinear_arith)
            requires
                0 <= share2 - share <= inc,
                0 <= st <= total,
                inc >= 0,
        ;
        assert(inc * total <= mul) by (nonlinear_arith)
            requires
                inc == mul / total,
                total > 0,
                mul >= 0,
        ;
        assert(g.remaining_reward[slot] == f.remaining_reward[slot] - dist);
        assert(ACC_REWARD_MULTIPLIER * g.remaining_reward[slot] == ACC_REWARD_MULTIPLIER
            * f.remaining_reward[slot] - ACC_REWARD_MULTIPLIER * dist) by (nonlinear_arith)
            requires
                g.remaining_reward[slot] == f.remaining_reward[slot] - dist,
        ;
    }
}


/// Stake records of another farm are untouched by a write to the record of
/// (account, farm id).
pub proof fn lemma_other_farm_frame(
    old: Seq<StakeEntry>,
    new: Seq<StakeEntry>,
    account: Seq<char>,
    farm_id: u64,
    other: u64,
    slot: int,
    share: u128,
)
    requires
        unique_stakes(old),
        unique_stakes(new),
        record_written(old, new, account, farm_id),
        other != farm_id,
    ensures
        claims(new, other, slot, share) == claims(old, other, slot, share),
        staked(new, other) == staked(old, other),
{
    lemma_sum_frame(old, new, account, farm_id, claim_term(other, slot, share));
    lemma_sum_frame(old, new, account, farm_id, stake_term(other));
}

/// Slot `slot` of farm `farm_id` of ledger `c` is solvent for `funded` and `paid`.
pub open spec fn solvent_at(c: ChildFarmingContract, farm_id: u64, slot: int, funded: int, paid: int) -> bool {
    solvent(c.stakes@, c.farm(farm_id as int), farm_id, slot, funded, paid)
}

/// Conservation: while a slot is solvent, the credit its stakers hold,
/// accrued plus pending, never exceeds what was paid in less what was paid out.
pub proof fn lemma_conservation(c: ChildFarmingContract, farm_id: u64, slot: int, funded: int, paid: int)
    requires
        solvent_at(c, farm_id, slot, funded, paid),
    ensures
        owed(c.stakes@, farm_id, slot, c.farm(farm_id as int).reward_per_share[slot]) <= funded
            - paid,
{
    let f = c.farm(farm_id as int);
    let share = f.reward_per_share[slot];
    lemma_owed_le_claims(c.stakes@, farm_id, slot, share);
    let o = owed(c.stakes@, farm_id, slot, share);
    assert(ACC_REWARD_MULTIPLIER * o <= ACC_REWARD_MULTIPLIER * (funded - paid));
    assert(o <= funded - paid) by (nonlinear_arith)
        requires
            ACC_REWARD_MULTIPLIER * o <= ACC_REWARD_MULTIPLIER * (funded - paid),
            ACC_REWARD_MULTIPLIER > 0,
    ;
}

proof fn lemma_owed_le_claims(s: Seq<StakeEntry>, farm_id: u64, slot: int, share: u128)
    ensures
        ACC_REWARD_MULTIPLIER * owed(s, farm_id, slot, share) <= claims(s, farm_id, slot, share),
    decreases s.len(),
{
    if s.len() > 0 {
        lemma_owed_le_claims(s.drop_last(), farm_id, slot, share);
        let e = s.last();
        let rest = owed(s.drop_last(), farm_id, slot, share);
        let here = owed_term(farm_id, slot, share)(e);
        if e.farm_id == farm_id {
            let m = e.info@;
            let a = m.amount as int;
            let diff = sat_sub(share as int, m.reward_debt[slot] as int);
            let p = pending_reward(m.amount, share, m.reward_debt[slot]);
            let mul = crate::accumulator::sat_mul(a, diff);
            assert(mul <= a * diff) by (nonlinear_arith)
                requires
                    mul == crate::accumulator::sat_mul(a, diff),
                    a >= 0,
                    diff >= 0,
            ;
            assert(ACC_REWARD_MULTIPLIER * p <= mul) by (nonlinear_arith)
                requires
                    p == mul / (ACC_REWARD_MULTIPLIER as int),
                    mul >= 0,
            ;
        }
        assert(ACC_REWARD_MULTIPLIER * (rest + here) == ACC_REWARD_MULTIPLIER * rest
            + ACC_REWARD_MULTIPLIER * here) by (nonlinear_arith);
    }
}

/// A new farm starts solvent in every slot with nothing paid in or out.
pub proof fn lemma_create_solvent(old: ChildFarmingContract, new: ChildFarmingContract, slot: int)
    requires
        old.wf(),
        new.stakes == old.stakes,
        new.farms@.len() == old.farms@.len() + 1,
        0 <= slot < new.farm(old.farm_count as int).slots(),
        new.farm(old.farm_count as int).remaining_reward == Seq::new(
            new.farm(old.farm_count as int).reward_tokens.len(),
            |i: int| 0u128,
        ),
    ensures
        solvent_at(new, old.farm_count, slot, 0, 0),
{
    lemma_no_records(old.stakes@, old.farm_count, slot, new.farm(old.farm_count as int).reward_per_share[slot]);
}

proof fn lemma_no_records(s: Seq<StakeEntry>, farm_id: u64, slot: int, share: u128)
    requires
        forall|i: int| 0 <= i < s.len() ==> (#[trigger] s[i]).farm_id < farm_id,
    ensures
        claims(s, farm_id, slot, share) == 0,
        staked(s, farm_id) == 0,
    decreases s.len(),
{
    if s.len() > 0 {
        assert(s.last() == s[s.len() - 1]);
        lemma_no_records(s.drop_last(), farm_id, slot, share);
    }
}

/// A catch-up of one farm keeps every slot of every farm solvent.
pub proof fn lemma_update_farm_solvent(
    old: ChildFarmingContract,
    new: ChildFarmingContract,
    farm_id: u64,
    now: u64,
    other: u64,
    slot: int,
    funded: int,
    paid: int,
)
    requires
        old.wf(),
        farm_id < old.farm_count,
        other < old.farm_count,
        0 <= slot < old.farm(other as int).slots(),
        new.farm(farm_id as int) == old.farm(farm_id as int).caught_up(now),
        old.same_except(new, farm_id, Seq::empty()),
        new.stakes == old.stakes,
        solvent_at(old, other, slot, funded, paid),
    ensures
        solvent_at(new, other, slot, funded, paid),
{
    if other == farm_id {
        lemma_catch_up_solvent(old.stakes@, old.farm(farm_id as int), now, farm_id, slot, funded, paid);
    } else {
        assert(new.farms@[other as int] == old.farms@[other as int]);
    }
}

/// Funding a slot credits what was paid in; no other slot changes.
pub proof fn lemma_add_reward_solvent(
    old: ChildFarmingContract,
    new: ChildFarmingContract,
    farm_id: u64,
    token: Seq<char>,
    amount: u128,
    other: u64,
    slot: int,
    funded: int,
    paid: int,
)
    requires
        old.wf(),
        old.reward_post(new, farm_id, token, amount, Ok(())),
        other < old.farm_count,
        0 <= slot < old.farm(other as int).slots(),
        solvent_at(old, other, slot, funded, paid),
    ensures
        solvent_at(
            new,
            other,
            slot,
            if other == farm_id && old.farm(farm_id as int).reward_tokens[slot]@ == token {
                funded + amount
            } else {
                funded
            },
            paid,
        ),
{
    if other == farm_id {
        let f = old.farm(farm_id as int);
        let i = choose|i: int|
            crate::contract::is_first_slot(f.reward_tokens, token, i) && new.farm(farm_id as int)
                == FarmModel {
                remaining_reward: f.remaining_reward.update(
                    i,
                    crate::accumulator::sat_add(f.remaining_reward[i] as int, amount as int) as u128,
                ),
                ..f
            };
        if slot == i {
            let r = f.remaining_reward[slot] as int;
            let r2 = new.farm(farm_id as int).remaining_reward[slot] as int;
            assert(r2 <= r + amount);
            assert(ACC_REWARD_MULTIPLIER * r2 <= ACC_REWARD_MULTIPLIER * r + ACC_REWARD_MULTIPLIER
                * amount) by (nonlinear_arith)
                requires
                    r2 <= r + amount,
            ;
        }
    } else {
        assert(new.farms@[other as int] == old.farms@[other as int]);
    }
}


/// A stake keeps every slot of every farm solvent, as long as the farm's
/// total does not clamp.
pub proof fn lemma_stake_solvent(
    old: ChildFarmingContract,
    new: ChildFarmingContract,
    farm_id: u64,
    token: Seq<char>,
    amount: u128,
    sender: Seq<char>,
    now: u64,
    byte_cost: u128,
    other: u64,
    slot: int,
    funded: int,
    paid: int,
)
    requires
        old.wf(),
        new.wf(),
        old.stake_post(new, farm_id, token, amount, sender, now, byte_cost, Ok(())),
        farm_id < old.farm_count ==> old.farm(farm_id as int).total_staked + amount <= u128::MAX,
        other < old.farm_count,
        0 <= slot < old.farm(other as int).slots(),
        solvent_at(old, other, slot, funded, paid),
    ensures
        solvent_at(new, other, slot, funded, paid),
{
    assert(old.stake_check(farm_id, token, sender, byte_cost) is Ok);
    if other != farm_id {
        lemma_other_farm_frame(
            old.stakes@,
            new.stakes@,
            sender,
            farm_id,
            other,
            slot,
            old.farm(other as int).reward_per_share[slot],
        );
        assert(new.farms@[other as int] == old.farms@[other as int]);
    } else {
        let f = old.farm(farm_id as int);
        let f1 = f.caught_up(now);
        let share = f1.reward_per_share[slot];
        lemma_catch_up_solvent(old.stakes@, f, now, farm_id, slot, funded, paid);
        lemma_sum_frame(old.stakes@, new.stakes@, sender, farm_id, claim_term(farm_id, slot, share));
        lemma_sum_frame(old.stakes@, new.stakes@, sender, farm_id, stake_term(farm_id));
        lemma_key_term_found(old.stakes@, sender, farm_id, slot, share);
        lemma_key_term_found(new.stakes@, sender, farm_id, slot, share);
        let lock = crate::contract::add_u64_sat(now, f1.lockup_period);
        let base = match old.stake(sender, farm_id) {
            Some(m) => m,
            None => StakeModel {
                amount: 0,
                lockup_end: lock,
                reward_debt: Seq::new(f1.reward_tokens.len(), |i: int| 0u128),
                accrued_rewards: Seq::new(f1.reward_tokens.len(), |i: int| 0u128),
            },
        };
        if old.stake(sender, farm_id) is Some {
            old.lemma_stake_wf(sender, farm_id);
        }
        lemma_settle_claim(base, slot, f1.reward_per_share);
        let after = old.stake_after(farm_id, amount, sender, now);
        assert(after.reward_debt == f1.reward_per_share);
        assert(sat_sub(share as int, after.reward_debt[slot] as int) == 0);
        let am = after.amount as int;
        assert(am * 0int == 0) by (nonlinear_arith);
        assert(model_claim(after, slot, share) == ACC_REWARD_MULTIPLIER * after.accrued_rewards[slot]);
    }
}

/// A claim keeps every slot solvent once what it paid out of the slot is
/// counted as paid.
pub proof fn lemma_claim_solvent(
    old: ChildFarmingContract,
    new: ChildFarmingContract,
    farm_id: u64,
    user: Seq<char>,
    now: u64,
    sent: Seq<crate::contract::TransferModel>,
    other: u64,
    slot: int,
    funded: int,
    paid: int,
)
    requires
        old.wf(),
        new.wf(),
        old.claim_check(farm_id, user) is Ok,
        old.claim_post(new, farm_id, user, now, sent),
        other < old.farm_count,
        0 <= slot < old.farm(other as int).slots(),
        solvent_at(old, other, slot, funded, paid),
    ensures
        solvent_at(
            new,
            other,
            slot,
            funded,
            if other == farm_id {
                paid + old.settled_at(farm_id, user, now).accrued_rewards[slot]
            } else {
                paid
            },
        ),
{
    if other != farm_id {
        lemma_other_farm_frame(
            old.stakes@,
            new.stakes@,
            user,
            farm_id,
            other,
            slot,
            old.farm(other as int).reward_per_share[slot],
        );
        assert(new.farms@[other as int] == old.farms@[other as int]);
    } else {
        let f = old.farm(farm_id as int);
        let f1 = f.caught_up(now);
        let share = f1.reward_per_share[slot];
        lemma_catch_up_solvent(old.stakes@, f, now, farm_id, slot, funded, paid);
        lemma_sum_frame(old.stakes@, new.stakes@, user, farm_id, claim_term(farm_id, slot, share));
        lemma_sum_frame(old.stakes@, new.stakes@, user, farm_id, stake_term(farm_id));
        lemma_key_term_found(old.stakes@, user, farm_id, slot, share);
        lemma_key_term_found(new.stakes@, user, farm_id, slot, share);
        old.lemma_stake_wf(user, farm_id);
        let m = old.stake(user, farm_id)->0;
        lemma_settle_claim(m, slot, f1.reward_per_share);
        let s = old.settled_at(farm_id, user, now);
        let acc = s.accrued_rewards[slot] as int;
        let left = new.stake(user, farm_id)->0;
        assert(model_claim(left, slot, share) == 0);
        assert(ACC_REWARD_MULTIPLIER * (funded - (paid + acc)) == ACC_REWARD_MULTIPLIER * (funded
            - paid) - ACC_REWARD_MULTIPLIER * acc) by (nonlinear_arith);
    }
}

/// A withdrawal keeps every slot of every farm solvent.
pub proof fn lemma_withdraw_solvent(
    old: ChildFarmingContract,
    new: ChildFarmingContract,
    farm_id: u64,
    user: Seq<char>,
    amount: u128,
    now: u64,
    sent: crate::contract::TransferModel,
    other: u64,
    slot: int,
    funded: int,
    paid: int,
)
    requires
        old.wf(),
        new.wf(),
        old.withdraw_check(farm_id, user, amount, now) is Ok,
        old.withdraw_post(new, farm_id, user, amount, now, sent),
        other < old.farm_count,
        0 <= slot < old.farm(other as int).slots(),
        solvent_at(old, other, slot, funded, paid),
    ensures
        solvent_at(new, other, slot, funded, paid),
{
    if other != farm_id {
        lemma_other_farm_frame(
            old.stakes@,
            new.stakes@,
            user,
            farm_id,
            other,
            slot,
            old.farm(other as int).reward_per_share[slot],
        );
        assert(new.farms@[other as int] == old.farms@[other as int]);
    } else {
        let f = old.farm(farm_id as int);
        let f1 = f.caught_up(now);
        let share = f1.reward_per_share[slot];
        lemma_catch_up_solvent(old.stakes@, f, now, farm_id, slot, funded, paid);
        lemma_sum_frame(old.stakes@, new.stakes@, user, farm_id, claim_term(farm_id, slot, share));
        lemma_sum_frame(old.stakes@, new.stakes@, user, farm_id, stake_term(farm_id));
        lemma_key_term_found(old.stakes@, user, farm_id, slot, share);
        lemma_key_term_found(new.stakes@, user, farm_id, slot, share);
        old.lemma_stake_wf(user, farm_id);
        let m = old.stake(user, farm_id)->0;
        lemma_settle_claim(m, slot, f1.reward_per_share);
        let k = choose|i: int| stake_key_at(old.stakes@, i, user, farm_id);
        assert forall|e: StakeEntry| #[trigger] stake_term(farm_id)(e) >= 0 by {}
        lemma_sum_ge_term(old.stakes@, k, stake_term(farm_id));
        assert forall|e: StakeEntry| #[trigger] claim_term(farm_id, slot, share)(e) >= 0 by {
            if e.farm_id == farm_id {
                let a = e.info@.amount as int;
                let d = sat_sub(share as int, e.info@.reward_debt[slot] as int);
                assert(a * d >= 0) by (nonlinear_arith)
                    requires
                        a >= 0,
                        d >= 0,
                ;
            }
        }
        let s = old.settled_at(farm_id, user, now);
        if s.amount != amount {
            let left = new.stake(user, farm_id)->0;
            assert(left.reward_debt == f1.reward_per_share);
            assert(sat_sub(share as int, left.reward_debt[slot] as int) == 0);
            assert(left.amount * 0int == 0);
        }
    }
}

} // verus!
