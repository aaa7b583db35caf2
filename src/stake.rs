use vstd::prelude::*;

use crate::accumulator::{calculate_pending, pending_reward, sat_add};
use crate::farm::copy_amounts;

verus! {

/// One account's position in one farm. Times are in nanoseconds.
pub struct StakeInfo {
    pub amount: u128,
    pub lockup_end: u64,
    /// Accumulator values at the last settlement, per reward slot.
    pub reward_debt: Vec<u128>,
    /// Settled but unclaimed credit, per reward slot.
    pub accrued_rewards: Vec<u128>,
}

/// Mathematical picture of a `StakeInfo`.
pub struct StakeModel {
    pub amount: u128,
    pub lockup_end: u64,
    pub reward_debt: Seq<u128>,
    pub accrued_rewards: Seq<u128>,
}

impl View for StakeInfo {
    type V = StakeModel;

    open spec fn view(&self) -> StakeModel {
        StakeModel {
            amount: self.amount,
            lockup_end: self.lockup_end,
            reward_debt: self.reward_debt@,
            accrued_rewards: self.accrued_rewards@,
        }
    }
}

impl StakeModel {
    /// One debt and one accrual per reward slot of a farm with `slots` slots.
    pub open spec fn wf(self, slots: int) -> bool {
        &&& self.reward_debt.len() == slots
        &&& self.accrued_rewards.len() == slots
    }

    /// Credit of slot `i` once settled against the accumulator values `shares`.
    pub open spec fn owed(self, shares: Seq<u128>, i: int) -> int {
        sat_add(
            self.accrued_rewards[i] as int,
            pending_reward(self.amount, shares[i], self.reward_debt[i]),
        )
    }

    /// The stake after its pending credit was moved into `accrued_rewards`
    /// against the accumulator values `shares`.
    pub open spec fn settled(self, shares: Seq<u128>) -> StakeModel {
        StakeModel {
            reward_debt: shares,
            accrued_rewards: Seq::new(self.accrued_rewards.len(), |i: int| self.owed(shares, i) as u128),
            ..self
        }
    }
}

/// A zeroed list of `n` amounts.
pub fn zeros(n: usize) -> (r: Vec<u128>)
    ensures
        r@.len() == n,
        forall|i: int| 0 <= i < n ==> r@[i] == 0,
{
    let mut r: Vec<u128> = Vec::new();
    let mut i: usize = 0;
    while i < n
        invariant
            i <= n,
            r@.len() == i,
            forall|j: int| 0 <= j < i ==> r@[j] == 0,
        decreases n - i,
    {
        r.push(0);
        i = i + 1;
    }
    r
}

impl StakeInfo {
    /// A stake of nothing in a farm with `slots` reward slots, locked until `lockup_end`.
    pub fn empty(slots: usize, lockup_end: u64) -> (r: StakeInfo)
        ensures
            r@.amount == 0,
            r@.lockup_end == lockup_end,
            r@.wf(slots as int),
            forall|i: int| 0 <= i < slots ==> r@.reward_debt[i] == 0 && r@.accrued_rewards[i] == 0,
    {
        StakeInfo { amount: 0, lockup_end, reward_debt: zeros(slots), accrued_rewards: zeros(slots) }
    }

    /// Field-by-field copy.
    pub fn copy(&self) -> (r: StakeInfo)
        ensures
            r@ == self@,
    {
        StakeInfo {
            amount: self.amount,
            lockup_end: self.lockup_end,
            reward_debt: copy_amounts(&self.reward_debt),
            accrued_rewards: copy_amounts(&self.accrued_rewards),
        }
    }

    /// Moves the credit earned since the last settlement into
    /// `accrued_rewards` and takes `shares` as the new debt baseline.
    pub fn settle(&mut self, shares: &Vec<u128>)
        requires
            old(self)@.wf(shares@.len() as int),
        ensures
            final(self)@ == old(self)@.settled(shares@),
    {
        let ghost before = self@;
        let n = shares.len();
        let mut i: usize = 0;
        while i < n
            invariant
                n == shares@.len(),
                i <= n,
                before.wf(n as int),
                self.amount == before.amount,
                self.lockup_end == before.lockup_end,
                self.reward_debt@.len() == n,
                self.accrued_rewards@.len() == n,
                forall|j: int| 0 <= j < i ==> self.reward_debt@[j] == shares@[j],
                forall|j: int| 0 <= j < i ==> self.accrued_rewards@[j] == before.owed(shares@, j),
                forall|j: int| i <= j < n ==> self.reward_debt@[j] == before.reward_debt[j],
                forall|j: int| i <= j < n ==> self.accrued_rewards@[j] == before.accrued_rewards[j],
            decreases n - i,
        {
            let pending = calculate_pending(self.amount, shares[i], self.reward_debt[i]);
            let accrued = self.accrued_rewards[i].saturating_add(pending);
            self.accrued_rewards.set(i, accrued);
            self.reward_debt.set(i, shares[i]);
            i = i + 1;
        }
        proof {
            let target = before.settled(shares@);
            assert(self.reward_debt@ =~= target.reward_debt);
            assert(self.accrued_rewards@ =~= target.accrued_rewards);
        }
    }
}

} // verus!
