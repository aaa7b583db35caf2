use vstd::prelude::*;

use crate::contract::{ChildFarmingContract, NANOS_PER_SEC};
use crate::farm::{copy_amounts, copy_tokens, FarmModel, FarmParams, FarmStatus};
use crate::ledger::{lemma_find_stake_at, stake_key_at, StakeEntry};
use crate::stake::{StakeInfo, StakeModel};
use crate::accumulator::calculate_pending;

verus! {

/// A farm as read-only queries report it. Durations and instants are in seconds.
pub struct FarmView {
    pub farm_id: u64,
    pub staking_token: String,
    pub reward_tokens: Vec<String>,
    pub reward_per_session: Vec<u128>,
    pub session_interval_sec: u64,
    pub start_at_sec: u64,
    pub last_distribution_sec: u64,
    pub total_staked: u128,
    pub reward_per_share: Vec<u128>,
    pub remaining_reward: Vec<u128>,
    pub lockup_period_sec: u64,
    pub status: FarmStatus,
}

/// A stake as read-only queries report it, with the credit it would hold if
/// settled now.
pub struct StakeInfoView {
    pub farm_id: u64,
    pub amount: u128,
    pub lockup_end_sec: u64,
    pub reward_debt: Vec<u128>,
    pub accrued_rewards: Vec<u128>,
    pub reward_tokens: Vec<String>,
}

impl FarmView {
    /// This view reports farm `f` under id `id`.
    pub open spec fn shows(self, f: FarmModel, id: u64) -> bool {
        &&& self.farm_id == id
        &&& self.staking_token@ == f.staking_token
        &&& self.reward_tokens@ == f.reward_tokens
        &&& self.reward_per_session@ == f.reward_per_session
        &&& self.session_interval_sec == f.session_interval / NANOS_PER_SEC
        &&& self.start_at_sec == f.start_time / NANOS_PER_SEC
        &&& self.last_distribution_sec == f.last_distribution / NANOS_PER_SEC
        &&& self.total_staked == f.total_staked
        &&& self.reward_per_share@ == f.reward_per_share
        &&& self.remaining_reward@ == f.remaining_reward
        &&& self.lockup_period_sec == f.lockup_period / NANOS_PER_SEC
        &&& self.status == f.status
    }

    /// Report of `farm` under id `farm_id`.
    pub fn from_farm(farm: &FarmParams, farm_id: u64) -> (r: FarmView)
        ensures
            r.shows(farm@, farm_id),
    {
        FarmView {
            farm_id,
            staking_token: farm.staking_token.clone(),
            reward_tokens: copy_tokens(&farm.reward_tokens),
            reward_per_session: copy_amounts(&farm.reward_per_session),
            session_interval_sec: farm.session_interval / NANOS_PER_SEC,
            start_at_sec: farm.start_time / NANOS_PER_SEC,
            last_distribution_sec: farm.last_distribution / NANOS_PER_SEC,
            total_staked: farm.total_staked,
            reward_per_share: copy_amounts(&farm.reward_per_share),
            remaining_reward: copy_amounts(&farm.remaining_reward),
            lockup_period_sec: farm.lockup_period / NANOS_PER_SEC,
            status: farm.status,
        }
    }
}

impl StakeInfoView {
    /// This view reports stake `s` in farm `id`, whose state projected to
    /// the time of the query is `f`.
    pub open spec fn shows(self, s: StakeModel, f: FarmModel, id: u64) -> bool {
        &&& self.farm_id == id
        &&& self.amount == s.amount
        &&& self.lockup_end_sec == s.lockup_end / NANOS_PER_SEC
        &&& self.reward_debt@ == s.reward_debt
        &&& self.accrued_rewards@ == Seq::new(
            s.accrued_rewards.len(),
            |i: int| s.owed(f.reward_per_share, i) as u128,
        )
        &&& self.reward_tokens@ == f.reward_tokens
    }

    /// Report of `info` in farm `farm_id`, whose projected state is `farm`.
    pub fn from_stake(info: &StakeInfo, farm: &FarmParams, farm_id: u64) -> (r: StakeInfoView)
        requires
            info@.wf(farm@.slots()),
            farm@.wf(),
        ensures
            r.shows(info@, farm@, farm_id),
    {
        let n = info.accrued_rewards.len();
        let mut accrued: Vec<u128> = Vec::new();
        let mut i: usize = 0;
        while i < n
            invariant
                n == info@.accrued_rewards.len(),
                info@.wf(farm@.slots()),
                farm@.wf(),
                i <= n,
                accrued@.len() == i,
                forall|j: int|
                    0 <= j < i ==> accrued@[j] == info@.owed(farm@.reward_per_share, j) as u128,
            decreases n - i,
        {
            let pending = calculate_pending(info.amount, farm.reward_per_share[i], info.reward_debt[i]);
            accrued.push(info.accrued_rewards[i].saturating_add(pending));
            i = i + 1;
        }
        assert(accrued@ =~= Seq::new(
            info@.accrued_rewards.len(),
            |i: int| info@.owed(farm@.reward_per_share, i) as u128,
        ));
        StakeInfoView {
            farm_id,
            amount: info.amount,
            lockup_end_sec: info.lockup_end / NANOS_PER_SEC,
            reward_debt: copy_amounts(&info.reward_debt),
            accrued_rewards: accrued,
            reward_tokens: copy_tokens(&farm.reward_tokens),
        }
    }
}

/// Positions in `s[..n]` of the stakes held by `account`, in order.
pub open spec fn stakes_of(s: Seq<StakeEntry>, account: Seq<char>, n: int) -> Seq<int>
    decreases n,
{
    if n <= 0 {
        Seq::empty()
    } else if s[n - 1].account@ == account {
        stakes_of(s, account, n - 1).push(n - 1)
    } else {
        stakes_of(s, account, n - 1)
    }
}

impl ChildFarmingContract {
    /// Farms `from_index`, `from_index + 1`, ... up to `limit` of them,
    /// each as it stands after a catch-up at `now`. Nothing is written.
    pub fn list_farms(&self, from_index: u64, limit: u64, now: u64) -> (r: Vec<FarmView>)
        requires
            self.wf(),
        ensures
            r@.len() == if from_index >= self.farm_count {
                0
            } else if self.farm_count - from_index < limit {
                self.farm_count - from_index
            } else {
                limit as int
            },
            forall|j: int|
                0 <= j < r@.len() ==> (#[trigger] r@[j]).shows(
                    self.farm(from_index + j).caught_up(now),
                    (from_index + j) as u64,
                ),
    {
        let mut results: Vec<FarmView> = Vec::new();
        let end = if self.farm_count < from_index.saturating_add(limit) {
            self.farm_count
        } else {
            from_index.saturating_add(limit)
        };
        let mut id = from_index;
        while id < end
            invariant
                self.wf(),
                end as int == if self.farm_count < from_index + limit {
                    self.farm_count as int
                } else if from_index + limit > u64::MAX {
                    u64::MAX as int
                } else {
                    from_index + limit
                },
                id <= end || id == from_index,
                id >= from_index,
                results@.len() == id - from_index,
                forall|j: int|
                    0 <= j < results@.len() ==> (#[trigger] results@[j]).shows(
                        self.farm(from_index + j).caught_up(now),
                        (from_index + j) as u64,
                    ),
            decreases end - id,
        {
            let fid = self.farm_index(id);
            let sim = self.farms[fid].simulate_update_farm(now);
            results.push(FarmView::from_farm(&sim, id));
            id = id + 1;
        }
        results
    }

    /// Farm `farm_id` as it stands after a catch-up at `now`, if it exists.
    /// Nothing is written.
    pub fn get_farm(&self, farm_id: u64, now: u64) -> (r: Option<FarmView>)
        requires
            self.wf(),
        ensures
            r is Some <==> farm_id < self.farm_count,
            r matches Some(v) ==> v.shows(self.farm(farm_id as int).caught_up(now), farm_id),
    {
        if farm_id >= self.farm_count {
            return None;
        }
        let fid = self.farm_index(farm_id);
        let sim = self.farms[fid].simulate_update_farm(now);
        Some(FarmView::from_farm(&sim, farm_id))
    }

    /// The stake of `account` in farm `farm_id`, with its credit projected
    /// to `now`. Nothing is written.
    pub fn get_stake_info(&self, account: &String, farm_id: u64, now: u64) -> (r: Option<StakeInfoView>)
        requires
            self.wf(),
        ensures
            r is Some <==> self.stake(account@, farm_id) is Some,
            r matches Some(v) ==> v.shows(
                self.stake(account@, farm_id)->0,
                self.farm(farm_id as int).caught_up(now),
                farm_id,
            ),
    {
        let mut i: usize = 0;
        while i < self.stakes.len()
            invariant
                self.wf(),
                i <= self.stakes@.len(),
                forall|j: int| 0 <= j < i ==> !stake_key_at(self.stakes@, j, account@, farm_id),
            decreases self.stakes@.len() - i,
        {
            if self.stakes[i].farm_id == farm_id && self.stakes[i].account == *account {
                proof {
                    lemma_find_stake_at(self.stakes@, i as int);
                }
                let fid = self.farm_index(farm_id);
                let sim = self.farms[fid].simulate_update_farm(now);
                return Some(StakeInfoView::from_stake(&self.stakes[i].info, &sim, farm_id));
            }
            i = i + 1;
        }
        None
    }

    /// The stakes of `account`, in ledger order, skipping the first
    /// `from_index` and keeping at most `limit`, each with its credit
    /// projected to `now`. Nothing is written.
    pub fn list_stakes_by_user(&self, account: &String, from_index: u64, limit: u64, now: u64) -> (r:
        Vec<StakeInfoView>)
        requires
            self.wf(),
        ensures
            ({
                let ids = stakes_of(self.stakes@, account@, self.stakes@.len() as int);
                &&& r@.len() == if ids.len() <= from_index {
                    0
                } else if ids.len() - from_index < limit {
                    ids.len() - from_index
                } else {
                    limit as int
                }
                &&& forall|j: int|
                    0 <= j < r@.len() ==> {
                        let e = self.stakes@[ids[from_index + j]];
                        (#[trigger] r@[j]).shows(
                            e.info@,
                            self.farm(e.farm_id as int).caught_up(now),
                            e.farm_id,
                        )
                    }
            }),
    {
        let mut results: Vec<StakeInfoView> = Vec::new();
        let mut count: u64 = 0;
        let mut skipped: u64 = 0;
        let mut i: usize = 0;
        let n = self.stakes.len();
        while i < n
            invariant
                self.wf(),
                n == self.stakes@.len(),
                i <= n,
                results@.len() == count,
                count <= limit,
                ({
                    let ids = stakes_of(self.stakes@, account@, i as int);
                    &&& ids.len() <= from_index ==> skipped == ids.len() && count == 0
                    &&& ids.len() > from_index ==> skipped == from_index && count == ids.len()
                        - from_index
                    &&& forall|j: int|
                        0 <= j < results@.len() ==> {
                            let e = self.stakes@[ids[from_index + j]];
                            (#[trigger] results@[j]).shows(
                                e.info@,
                                self.farm(e.farm_id as int).caught_up(now),
                                e.farm_id,
                            )
                        }
                }),
            decreases n - i,
        {
            let ghost ids = stakes_of(self.stakes@, account@, i as int);
            let ghost next = stakes_of(self.stakes@, account@, i + 1);
            if self.stakes[i].account == *account {
                assert(next == ids.push(i as int));
                if skipped < from_index {
                    skipped = skipped + 1;
                } else if count < limit {
                    let farm_id = self.stakes[i].farm_id;
                    let fid = self.farm_index(farm_id);
                    let sim = self.farms[fid].simulate_update_farm(now);
                    results.push(StakeInfoView::from_stake(&self.stakes[i].info, &sim, farm_id));
                    count = count + 1;
                    proof {
                        assert forall|j: int| 0 <= j < results@.len() implies {
                            let e = self.stakes@[next[from_index + j]];
                            (#[trigger] results@[j]).shows(
                                e.info@,
                                self.farm(e.farm_id as int).caught_up(now),
                                e.farm_id,
                            )
                        } by {
                            if j < results@.len() - 1 {
                                assert(next[from_index + j] == ids[from_index + j]);
                            }
                        }
                    }
                } else {
                    proof {
                        lemma_stakes_prefix_len(self.stakes@, account@, i as int + 1, n as int);
                        lemma_stakes_prefix(self.stakes@, account@, i as int + 1, n as int);
                    }
                    return results;
                }
            } else {
                assert(next == ids);
            }
            i = i + 1;
        }
        results
    }
}

proof fn lemma_stakes_prefix_len(s: Seq<StakeEntry>, account: Seq<char>, m: int, n: int)
    requires
        0 <= m <= n <= s.len(),
    ensures
        stakes_of(s, account, m).len() <= stakes_of(s, account, n).len(),
    decreases n - m,
{
    if m < n {
        lemma_stakes_prefix_len(s, account, m, n - 1);
    }
}

proof fn lemma_stakes_prefix(s: Seq<StakeEntry>, account: Seq<char>, m: int, n: int)
    requires
        0 <= m <= n <= s.len(),
    ensures
        forall|j: int|
            0 <= j < stakes_of(s, account, m).len() ==> #[trigger] stakes_of(s, account, n)[j]
                == stakes_of(s, account, m)[j],
    decreases n - m,
{
    if m < n {
        lemma_stakes_prefix(s, account, m, n - 1);
        lemma_stakes_prefix_len(s, account, m, n - 1);
    }
}

} // verus!
