use vstd::prelude::*;

use crate::accumulator::{
    distribute_slot, min, next_share, sat_add, sessions_elapsed, slot_distribution,
};

verus! {

/// Lifecycle state of a farm. `Ended` is terminal.
#[derive(Clone, Copy, Debug, PartialEq, Eq, Structural)]
pub enum FarmStatus {
    Active,
    Ended,
}

/// The live record of one farm. Times are in nanoseconds.
pub struct FarmParams {
    pub staking_token: String,
    pub reward_tokens: Vec<String>,
    pub reward_per_session: Vec<u128>,
    pub session_interval: u64,
    pub start_time: u64,
    pub last_distribution: u64,
    pub total_staked: u128,
    /// Scaled by `ACC_REWARD_MULTIPLIER`.
    pub reward_per_share: Vec<u128>,
    pub lockup_period: u64,
    /// What is left to hand out, per reward slot.
    pub remaining_reward: Vec<u128>,
    pub status: FarmStatus,
}

/// Mathematical picture of a `FarmParams`.
pub struct FarmModel {
    pub staking_token: Seq<char>,
    pub reward_tokens: Seq<String>,
    pub reward_per_session: Seq<u128>,
    pub session_interval: u64,
    pub start_time: u64,
    pub last_distribution: u64,
    pub total_staked: u128,
    pub reward_per_share: Seq<u128>,
    pub lockup_period: u64,
    pub remaining_reward: Seq<u128>,
    pub status: FarmStatus,
}

impl View for FarmParams {
    type V = FarmModel;

    open spec fn view(&self) -> FarmModel {
        FarmModel {
            staking_token: self.staking_token@,
            reward_tokens: self.reward_tokens@,
            reward_per_session: self.reward_per_session@,
            session_interval: self.session_interval,
            start_time: self.start_time,
            last_distribution: self.last_distribution,
            total_staked: self.total_staked,
            reward_per_share: self.reward_per_share@,
            lockup_period: self.lockup_period,
            remaining_reward: self.remaining_reward@,
            status: self.status,
        }
    }
}

impl FarmModel {
    /// Number of reward slots.
    pub open spec fn slots(self) -> int {
        self.reward_tokens.len() as int
    }

    /// One entry per reward slot in every per-slot list, and a positive session length.
    pub open spec fn wf(self) -> bool {
        &&& self.reward_per_session.len() == self.slots()
        &&& self.reward_per_share.len() == self.slots()
        &&& self.remaining_reward.len() == self.slots()
        &&& self.session_interval > 0
    }

    /// True when no slot has anything left to hand out.
    pub open spec fn exhausted(self) -> bool {
        forall|i: int| 0 <= i < self.remaining_reward.len() ==> self.remaining_reward[i] == 0
    }

    /// Sessions that a catch-up at `now` would realise.
    pub open spec fn sessions_at(self, now: u64) -> int {
        sessions_elapsed(self.last_distribution, now, self.session_interval)
    }

    /// True when a catch-up at `now` runs the accumulator.
    pub open spec fn distributes_at(self, now: u64) -> bool {
        &&& self.status == FarmStatus::Active
        &&& now >= self.start_time
        &&& self.total_staked > 0
        &&& self.sessions_at(now) > 0
    }

    /// What slot `i` hands out in a catch-up at `now`.
    pub open spec fn distributed_at(self, now: u64, i: int) -> int {
        slot_distribution(self.sessions_at(now), self.reward_per_session[i], self.remaining_reward[i])
    }

    /// The farm after it was brought up to `now`.
    pub open spec fn caught_up(self, now: u64) -> FarmModel {
        if self.status == FarmStatus::Ended || now < self.start_time {
            self
        } else if self.total_staked == 0 {
            FarmModel { last_distribution: now, ..self }
        } else if self.sessions_at(now) == 0 {
            self
        } else {
            let shares = Seq::new(
                self.reward_per_share.len(),
                |i: int|
                    next_share(
                        self.reward_per_share[i],
                        self.distributed_at(now, i),
                        self.total_staked,
                    ) as u128,
            );
            let pools = Seq::new(
                self.remaining_reward.len(),
                |i: int| (self.remaining_reward[i] - self.distributed_at(now, i)) as u128,
            );
            let advanced = min(
                sat_add(
                    self.last_distribution as int,
                    self.sessions_at(now) * self.session_interval,
                ),
                now as int,
            ) as u64;
            let next = FarmModel {
                reward_per_share: shares,
                remaining_reward: pools,
                last_distribution: advanced,
                ..self
            };
            FarmModel {
                status: if next.exhausted() {
                    FarmStatus::Ended
                } else {
                    FarmStatus::Active
                },
                ..next
            }
        }
    }
}

/// Copy of a list of amounts.
pub fn copy_amounts(v: &Vec<u128>) -> (r: Vec<u128>)
    ensures
        r@ == v@,
{
    let mut r: Vec<u128> = Vec::new();
    let mut i: usize = 0;
    while i < v.len()
        invariant
            i <= v.len(),
            r@ == v@.subrange(0, i as int),
        decreases v.len() - i,
    {
        r.push(v[i]);
        i = i + 1;
        assert(r@ =~= v@.subrange(0, i as int));
    }
    assert(r@ =~= v@);
    r
}

/// Copy of a list of token identities.
pub fn copy_tokens(v: &Vec<String>) -> (r: Vec<String>)
    ensures
        r@ == v@,
{
    let mut r: Vec<String> = Vec::new();
    let mut i: usize = 0;
    while i < v.len()
        invariant
            i <= v.len(),
            r@ == v@.subrange(0, i as int),
        decreases v.len() - i,
    {
        r.push(v[i].clone());
        i = i + 1;
        assert(r@ =~= v@.subrange(0, i as int));
    }
    assert(r@ =~= v@);
    r
}

/// True when every entry is zero.
fn all_zero(v: &Vec<u128>) -> (r: bool)
    ensures
        r == forall|i: int| 0 <= i < v@.len() ==> v@[i] == 0,
{
    let mut i: usize = 0;
    while i < v.len()
        invariant
            i <= v.len(),
            forall|j: int| 0 <= j < i ==> v@[j] == 0,
        decreases v.len() - i,
    {
        if v[i] != 0 {
            return false;
        }
        i = i + 1;
    }
    true
}

impl FarmParams {
    /// Field-by-field copy.
    pub fn copy(&self) -> (r: FarmParams)
        ensures
            r@ == self@,
    {
        FarmParams {
            staking_token: self.staking_token.clone(),
            reward_tokens: copy_tokens(&self.reward_tokens),
            reward_per_session: copy_amounts(&self.reward_per_session),
            session_interval: self.session_interval,
            start_time: self.start_time,
            last_distribution: self.last_distribution,
            total_staked: self.total_staked,
            reward_per_share: copy_amounts(&self.reward_per_share),
            lockup_period: self.lockup_period,
            remaining_reward: copy_amounts(&self.remaining_reward),
            status: self.status,
        }
    }

    /// Brings the farm up to `now`: realises the emissions of every whole
    /// session since the last distribution, capped by each slot's pool, and
    /// ends the farm once every pool is empty.
    pub fn update_farm(&mut self, now: u64)
        requires
            old(self)@.wf(),
        ensures
            final(self)@ == old(self)@.caught_up(now),
            final(self)@.wf(),
    {
        if self.status == FarmStatus::Ended {
            return;
        }
        if now < self.start_time {
            return;
        }
        if self.total_staked == 0 {
            self.last_distribution = now;
            return;
        }
        let elapsed = now.saturating_sub(self.last_distribution);
        let sessions = elapsed / self.session_interval;
        if sessions == 0 {
            return;
        }
        let ghost before = self@;
        let n = self.reward_tokens.len();
        let mut i: usize = 0;
        while i < n
            invariant
                before.wf(),
                before == old(self)@,
                n == before.slots(),
                i <= n,
                sessions as int == before.sessions_at(now),
                self.total_staked == before.total_staked,
                self.total_staked > 0,
                self.reward_tokens@ == before.reward_tokens,
                self.reward_per_session@ == before.reward_per_session,
                self.reward_per_share@.len() == n,
                self.remaining_reward@.len() == n,
                forall|j: int|
                    0 <= j < i ==> self.reward_per_share@[j] == next_share(
                        before.reward_per_share[j],
                        before.distributed_at(now, j),
                        before.total_staked,
                    ),
                forall|j: int|
                    0 <= j < i ==> self.remaining_reward@[j] == before.remaining_reward[j]
                        - before.distributed_at(now, j),
                forall|j: int| i <= j < n ==> self.reward_per_share@[j] == before.reward_per_share[j],
                forall|j: int| i <= j < n ==> self.remaining_reward@[j] == before.remaining_reward[j],
                self.staking_token == old(self).staking_token,
                self.session_interval == before.session_interval,
                self.start_time == before.start_time,
                self.last_distribution == before.last_distribution,
                self.lockup_period == before.lockup_period,
                self.status == before.status,
            decreases n - i,
        {
            let (share, pool) = distribute_slot(
                sessions,
                self.reward_per_session[i],
                self.remaining_reward[i],
                self.reward_per_share[i],
                self.total_staked,
            );
            self.reward_per_share.set(i, share);
            self.remaining_reward.set(i, pool);
            i = i + 1;
        }
        assert(sessions * self.session_interval <= elapsed) by (nonlinear_arith)
            requires
                sessions == elapsed / self.session_interval,
                self.session_interval > 0,
        ;
        let advanced = self.last_distribution.saturating_add(sessions * self.session_interval);
        self.last_distribution = if advanced > now {
            now
        } else {
            advanced
        };
        if all_zero(&self.remaining_reward) {
            self.status = FarmStatus::Ended;
        }
        proof {
            let target = before.caught_up(now);
            assert(self.reward_per_share@ =~= target.reward_per_share);
            assert(self.remaining_reward@ =~= target.remaining_reward);
        }
    }

    /// The farm as a catch-up at `now` would leave it, without touching this one.
    pub fn simulate_update_farm(&self, now: u64) -> (r: FarmParams)
        requires
            self@.wf(),
        ensures
            r@ == self@.caught_up(now),
    {
        let mut sim = self.copy();
        sim.update_farm(now);
        sim
    }

    /// Slot of `token` among the reward tokens, if it is one.
    pub fn reward_slot(&self, token: &String) -> (r: Option<usize>)
        ensures
            r matches Some(i) ==> i < self.reward_tokens@.len() && self.reward_tokens@[i as int]@
                == token@ && forall|j: int| 0 <= j < i ==> self.reward_tokens@[j]@ != token@,
            r is None ==> forall|j: int|
                0 <= j < self.reward_tokens@.len() ==> self.reward_tokens@[j]@ != token@,
    {
        let mut i: usize = 0;
        while i < self.reward_tokens.len()
            invariant
                i <= self.reward_tokens@.len(),
                forall|j: int| 0 <= j < i ==> self.reward_tokens@[j]@ != token@,
            decreases self.reward_tokens@.len() - i,
        {
            if self.reward_tokens[i] == *token {
                return Some(i);
            }
            i = i + 1;
        }
        None
    }
}

} // verus!
