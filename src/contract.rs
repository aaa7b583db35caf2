use vstd::prelude::*;

use crate::accumulator::{sat_add, sat_mul, sat_sub};
use crate::farm::{FarmModel, FarmParams, FarmStatus};
use crate::ledger::{
    find_deposit, find_stake, lemma_find_deposit_at, lemma_find_deposit_push,
    lemma_find_deposit_update, lemma_find_stake_at, lemma_find_stake_push,
    lemma_find_stake_swap_remove, lemma_find_stake_update, record_written, rewritten_at,
    stake_key_at, swap_removed, unique_deposits, unique_stakes, DepositEntry, StakeEntry,
};
use crate::message::{parse_message, parse_message_exec, TransferAction};
use crate::stake::{zeros, StakeInfo, StakeModel};

verus! {

/// Nanoseconds in one second.
pub const NANOS_PER_SEC: u64 = 1_000_000_000;

/// Storage prefixes under which a host keeps the ledger's three maps.
#[derive(Clone, Copy, Debug, PartialEq, Eq, Structural)]
pub enum StorageKey {
    Farms,
    Stakes,
    StorageDeposits,
}

impl StorageKey {
    /// Key prefix of this map in the host's storage.
    pub fn prefix(&self) -> (r: Vec<u8>)
        ensures
            r@ == match self {
                StorageKey::Farms => seq![102u8, 97, 114, 109, 115],
                StorageKey::Stakes => seq![115u8, 116, 97, 107, 101, 115],
                StorageKey::StorageDeposits => seq![
                    115u8, 116, 111, 114, 97, 103, 101, 95, 100, 101, 112, 111, 115, 105, 116, 115,
                ],
            },
    {
        match self {
            StorageKey::Farms => vec![102u8, 97, 114, 109, 115],
            StorageKey::Stakes => vec![115u8, 116, 97, 107, 101, 115],
            StorageKey::StorageDeposits => vec![
                115u8, 116, 111, 114, 97, 103, 101, 95, 100, 101, 112, 111, 115, 105, 116, 115,
            ],
        }
    }
}

/// Why a call was refused. A refused call changes nothing.
#[derive(Clone, Copy, Debug, PartialEq, Eq, Structural)]
pub enum FarmError {
    /// The session interval of a new farm is zero.
    ZeroSessionInterval,
    /// A new farm lists a different number of reward tokens and reward rates.
    RewardListMismatch,
    /// The caller's prepaid storage falls short by `shortfall`.
    InsufficientStorage { shortfall: u128 },
    /// The caller asked to take back more prepaid storage than it holds.
    InsufficientDeposit,
    FarmNotFound,
    StakeNotFound,
    /// The farm has ended and takes no new stake.
    FarmEnded,
    /// The transferred token is not the farm's staking token.
    WrongStakingToken,
    /// The transferred token is not one of the farm's reward tokens.
    NotRewardToken,
    /// The stake is still locked.
    LockupNotExpired,
    /// The stake holds less than the amount asked for.
    InsufficientStake,
}

/// Parameters of a new farm. Durations and instants are in seconds.
pub struct FarmInput {
    pub staking_token: String,
    pub reward_tokens: Vec<String>,
    pub lockup_period_sec: u64,
    pub reward_per_session: Vec<u128>,
    pub session_interval_sec: u64,
    /// Zero starts emissions at creation time.
    pub start_at_sec: u64,
}

/// `s` seconds in nanoseconds, clamped to `u64::MAX`.
pub open spec fn secs_to_nanos(s: u64) -> u64 {
    if s * NANOS_PER_SEC > u64::MAX {
        u64::MAX
    } else {
        (s * NANOS_PER_SEC) as u64
    }
}

/// `a + b`, clamped to `u64::MAX`.
pub open spec fn add_u64_sat(a: u64, b: u64) -> u64 {
    if a + b > u64::MAX {
        u64::MAX
    } else {
        (a + b) as u64
    }
}

/// Storage a farm with `n` reward slots takes, in bytes.
pub open spec fn farm_storage_bytes(n: int) -> int {
    128 + 80 * n
}

/// Storage a stake in a farm with `n` reward slots takes, in bytes.
pub open spec fn stake_storage_bytes(n: int) -> int {
    64 + 32 * n
}

/// Admission test of `bytes` more bytes at `byte_cost` each against a prepaid `deposit`.
pub open spec fn storage_check(deposit: u128, bytes: int, byte_cost: u128) -> Result<(), FarmError> {
    let cost = sat_mul(bytes, byte_cost as int);
    if deposit >= cost {
        Ok(())
    } else {
        Err(FarmError::InsufficientStorage { shortfall: (cost - deposit) as u128 })
    }
}

/// The farm that `input` describes, created at `now`.
pub open spec fn new_farm_model(input: FarmInput, now: u64) -> FarmModel {
    FarmModel {
        staking_token: input.staking_token@,
        reward_tokens: input.reward_tokens@,
        reward_per_session: input.reward_per_session@,
        session_interval: secs_to_nanos(input.session_interval_sec),
        start_time: secs_to_nanos(input.start_at_sec),
        last_distribution: if input.start_at_sec == 0 {
            now
        } else {
            secs_to_nanos(input.start_at_sec)
        },
        total_staked: 0,
        reward_per_share: Seq::new(input.reward_tokens@.len(), |i: int| 0u128),
        lockup_period: secs_to_nanos(input.lockup_period_sec),
        remaining_reward: Seq::new(input.reward_tokens@.len(), |i: int| 0u128),
        status: FarmStatus::Active,
    }
}

/// An outbound transfer of `amount` of `token` to `receiver`. The ledger
/// has already been updated as if it succeeds.
pub struct Transfer {
    pub token: String,
    pub receiver: String,
    pub amount: u128,
}

/// Mathematical picture of a `Transfer`.
pub struct TransferModel {
    pub token: Seq<char>,
    pub receiver: Seq<char>,
    pub amount: u128,
}

impl View for Transfer {
    type V = TransferModel;

    open spec fn view(&self) -> TransferModel {
        TransferModel { token: self.token@, receiver: self.receiver@, amount: self.amount }
    }
}

pub open spec fn transfer_views(t: Seq<Transfer>) -> Seq<TransferModel> {
    Seq::new(t.len(), |i: int| t[i]@)
}

/// The payouts of a claim over the first `n` slots: one transfer to
/// `receiver` per slot with a nonzero amount, in slot order.
pub open spec fn payouts(tokens: Seq<String>, amounts: Seq<u128>, receiver: Seq<char>, n: int) -> Seq<
    TransferModel,
>
    decreases n,
{
    if n <= 0 {
        Seq::empty()
    } else {
        let p = payouts(tokens, amounts, receiver, n - 1);
        if amounts[n - 1] > 0 {
            p.push(TransferModel { token: tokens[n - 1]@, receiver, amount: amounts[n - 1] })
        } else {
            p
        }
    }
}

/// `i` is the first slot of `tokens` that holds `token`.
pub open spec fn is_first_slot(tokens: Seq<String>, token: Seq<char>, i: int) -> bool {
    &&& 0 <= i < tokens.len()
    &&& tokens[i]@ == token
    &&& forall|j: int| 0 <= j < i ==> tokens[j]@ != token
}

/// The ledger of one farming contract: every farm by sequential id, every
/// stake by (account, farm id), and every account's prepaid storage.
pub struct ChildFarmingContract {
    pub farms: Vec<FarmParams>,
    pub stakes: Vec<StakeEntry>,
    pub farm_count: u64,
    pub storage_deposits: Vec<DepositEntry>,
    pub admin: String,
}

impl ChildFarmingContract {
    pub open spec fn farm(self, id: int) -> FarmModel {
        self.farms@[id]@
    }

    /// The stake of `account` in farm `farm_id`, if it has one.
    pub open spec fn stake(self, account: Seq<char>, farm_id: u64) -> Option<StakeModel> {
        find_stake(self.stakes@, account, farm_id)
    }

    /// Prepaid storage balance of `account`.
    pub open spec fn deposit(self, account: Seq<char>) -> u128 {
        find_deposit(self.storage_deposits@, account)
    }

    pub open spec fn wf(self) -> bool {
        &&& self.farms@.len() == self.farm_count
        &&& forall|i: int| 0 <= i < self.farms@.len() ==> (#[trigger] self.farms@[i])@.wf()
        &&& unique_stakes(self.stakes@)
        &&& forall|i: int|
            0 <= i < self.stakes@.len() ==> (#[trigger] self.stakes@[i]).farm_id < self.farm_count
                && self.stakes@[i].info@.wf(self.farm(self.stakes@[i].farm_id as int).slots())
        &&& unique_deposits(self.storage_deposits@)
    }

    /// `other` differs from `self` at most in farm `farm_id` and in the
    /// stake of `account` there.
    pub open spec fn same_except(self, other: Self, farm_id: u64, account: Seq<char>) -> bool {
        &&& other.farm_count == self.farm_count
        &&& other.farms@.len() == self.farms@.len()
        &&& forall|j: int|
            0 <= j < self.farms@.len() && j != farm_id ==> #[trigger] other.farms@[j] == self.farms@[j]
        &&& forall|a: Seq<char>, f: u64|
            !(a == account && f == farm_id) ==> #[trigger] other.stake(a, f) == self.stake(a, f)
        &&& other.storage_deposits == self.storage_deposits
        &&& other.admin == self.admin
    }

    pub proof fn lemma_stake_wf(self, account: Seq<char>, farm_id: u64)
        requires
            self.wf(),
            self.stake(account, farm_id) is Some,
        ensures
            farm_id < self.farm_count,
            self.stake(account, farm_id)->0.wf(self.farm(farm_id as int).slots()),
    {
        let k = choose|i: int| stake_key_at(self.stakes@, i, account, farm_id);
        lemma_find_stake_at(self.stakes@, k);
    }

    /// An empty ledger administered by `admin`.
    pub fn new(admin: String) -> (r: Self)
        ensures
            r.wf(),
            r.farm_count == 0,
            r.stakes@.len() == 0,
            r.storage_deposits@.len() == 0,
            r.admin@ == admin@,
    {
        ChildFarmingContract {
            farms: Vec::new(),
            stakes: Vec::new(),
            farm_count: 0,
            storage_deposits: Vec::new(),
            admin,
        }
    }

    /// Bytes of storage a farm with `num_rewards` reward slots takes.
    pub fn estimate_farm_storage(num_rewards: usize) -> (r: u128)
        ensures
            r == farm_storage_bytes(num_rewards as int),
    {
        128 + 80 * (num_rewards as u128)
    }

    /// Bytes of storage a stake in a farm with `num_rewards` reward slots takes.
    pub fn estimate_stake_storage(num_rewards: usize) -> (r: u128)
        ensures
            r == stake_storage_bytes(num_rewards as int),
    {
        64 + 32 * (num_rewards as u128)
    }

    fn deposit_index(&self, account: &String) -> (r: Option<usize>)
        ensures
            r matches Some(k) ==> k < self.storage_deposits@.len()
                && self.storage_deposits@[k as int].account@ == account@,
            r is None ==> forall|i: int|
                0 <= i < self.storage_deposits@.len() ==> self.storage_deposits@[i].account@
                    != account@,
    {
        let mut i: usize = 0;
        while i < self.storage_deposits.len()
            invariant
                i <= self.storage_deposits@.len(),
                forall|j: int| 0 <= j < i ==> self.storage_deposits@[j].account@ != account@,
            decreases self.storage_deposits@.len() - i,
        {
            if self.storage_deposits[i].account == *account {
                return Some(i);
            }
            i = i + 1;
        }
        None
    }

    /// Prepaid storage balance of `account`.
    pub fn deposit_of(&self, account: &String) -> (r: u128)
        requires
            self.wf(),
        ensures
            r == self.deposit(account@),
    {
        match self.deposit_index(account) {
            Some(k) => {
                proof {
                    lemma_find_deposit_at(self.storage_deposits@, k as int);
                }
                self.storage_deposits[k].balance
            },
            None => {
                assert(!exists|i: int| crate::ledger::deposit_key_at(self.storage_deposits@, i, account@));
                0
            },
        }
    }

    fn set_deposit(&mut self, account: &String, balance: u128)
        requires
            old(self).wf(),
        ensures
            final(self).wf(),
            final(self).farms == old(self).farms,
            final(self).stakes == old(self).stakes,
            final(self).farm_count == old(self).farm_count,
            final(self).admin == old(self).admin,
            final(self).deposit(account@) == balance,
            forall|a: Seq<char>| a != account@ ==> #[trigger] final(self).deposit(a) == old(self).deposit(a),
    {
        let e = DepositEntry { account: account.clone(), balance };
        match self.deposit_index(account) {
            Some(k) => {
                proof {
                    lemma_find_deposit_update(self.storage_deposits@, k as int, e);
                }
                self.storage_deposits.set(k, e);
            },
            None => {
                proof {
                    lemma_find_deposit_push(self.storage_deposits@, e);
                }
                self.storage_deposits.push(e);
            },
        }
    }

    /// Credits `amount` of prepaid storage to `account`.
    pub fn storage_deposit(&mut self, account: &String, amount: u128)
        requires
            old(self).wf(),
        ensures
            final(self).wf(),
            final(self).deposit(account@) == sat_add(old(self).deposit(account@) as int, amount as int),
            forall|a: Seq<char>| a != account@ ==> #[trigger] final(self).deposit(a) == old(self).deposit(a),
            final(self).farms == old(self).farms,
            final(self).stakes == old(self).stakes,
            final(self).farm_count == old(self).farm_count,
    {
        let current = self.deposit_of(account);
        self.set_deposit(account, current.saturating_add(amount));
    }

    /// Takes `amount` of prepaid storage back from `account`, or all of it
    /// when `amount` is `None`; returns what is to be paid out.
    pub fn storage_withdraw(&mut self, account: &String, amount: Option<u128>) -> (r: Result<
        u128,
        FarmError,
    >)
        requires
            old(self).wf(),
        ensures
            final(self).wf(),
            r is Err ==> *final(self) == *old(self),
            ({
                let want = match amount {
                    Some(v) => v,
                    None => old(self).deposit(account@),
                };
                &&& r is Err <==> want > old(self).deposit(account@)
                &&& r is Err ==> r == Err::<u128, FarmError>(FarmError::InsufficientDeposit)
                &&& r is Ok ==> r == Ok::<u128, FarmError>(want) && final(self).deposit(account@)
                    == old(self).deposit(account@) - want
            }),
            forall|a: Seq<char>| a != account@ ==> #[trigger] final(self).deposit(a) == old(self).deposit(a),
            final(self).farms == old(self).farms,
            final(self).stakes == old(self).stakes,
            final(self).farm_count == old(self).farm_count,
    {
        let current = self.deposit_of(account);
        let want = match amount {
            Some(v) => v,
            None => current,
        };
        if want > current {
            return Err(FarmError::InsufficientDeposit);
        }
        self.set_deposit(account, current - want);
        Ok(want)
    }

    /// Admission test: does `user` hold prepaid storage for `bytes_needed`
    /// more bytes at `byte_cost` each.
    pub fn assert_storage_sufficient(&self, user: &String, bytes_needed: u128, byte_cost: u128) -> (r:
        Result<(), FarmError>)
        requires
            self.wf(),
        ensures
            r == storage_check(self.deposit(user@), bytes_needed as int, byte_cost),
    {
        let deposit = self.deposit_of(user);
        let cost = crate::accumulator::mul_sat(bytes_needed, byte_cost);
        if deposit >= cost {
            Ok(())
        } else {
            Err(FarmError::InsufficientStorage { shortfall: cost - deposit })
        }
    }

    /// Allocates the next farm id to a farm built from `input`, created at
    /// `now` by `creator`, whose prepaid storage must cover the new record
    /// at `byte_cost` per byte. The reward pools start empty.
    pub fn create_farm(&mut self, creator: &String, input: FarmInput, now: u64, byte_cost: u128) -> (r:
        Result<u64, FarmError>)
        requires
            old(self).wf(),
            old(self).farm_count < u64::MAX,
        ensures
            final(self).wf(),
            r is Err ==> *final(self) == *old(self),
            input.session_interval_sec == 0 ==> r == Err::<u64, FarmError>(
                FarmError::ZeroSessionInterval,
            ),
            input.session_interval_sec > 0 ==> {
                let admitted = storage_check(
                    old(self).deposit(creator@),
                    farm_storage_bytes(input.reward_tokens@.len() as int),
                    byte_cost,
                );
                &&& admitted is Err ==> r == Err::<u64, FarmError>(admitted->Err_0)
                &&& admitted is Ok && input.reward_per_session@.len() != input.reward_tokens@.len()
                    ==> r == Err::<u64, FarmError>(FarmError::RewardListMismatch)
                &&& admitted is Ok && input.reward_per_session@.len() == input.reward_tokens@.len()
                    ==> r == Ok::<u64, FarmError>(old(self).farm_count)
            },
            r is Ok ==> {
                &&& final(self).farm_count == old(self).farm_count + 1
                &&& final(self).farms@.len() == old(self).farms@.len() + 1
                &&& forall|j: int|
                    0 <= j < old(self).farms@.len() ==> #[trigger] final(self).farms@[j]
                        == old(self).farms@[j]
                &&& final(self).farm(old(self).farm_count as int) == new_farm_model(input, now)
                &&& final(self).stakes == old(self).stakes
                &&& final(self).storage_deposits == old(self).storage_deposits
            },
    {
        if input.session_interval_sec == 0 {
            return Err(FarmError::ZeroSessionInterval);
        }
        let num_rewards = input.reward_tokens.len();
        let required = Self::estimate_farm_storage(num_rewards);
        match self.assert_storage_sufficient(creator, required, byte_cost) {
            Err(e) => {
                return Err(e);
            },
            Ok(()) => {},
        }
        if num_rewards != input.reward_per_session.len() {
            return Err(FarmError::RewardListMismatch);
        }
        let lockup = nanos_of(input.lockup_period_sec);
        let interval = nanos_of(input.session_interval_sec);
        let start = nanos_of(input.start_at_sec);
        let farm_id = self.farm_count;
        let farm = FarmParams {
            staking_token: input.staking_token,
            reward_tokens: input.reward_tokens,
            reward_per_session: input.reward_per_session,
            session_interval: interval,
            start_time: start,
            last_distribution: if input.start_at_sec == 0 {
                now
            } else {
                start
            },
            total_staked: 0,
            reward_per_share: zeros(num_rewards),
            lockup_period: lockup,
            remaining_reward: zeros(num_rewards),
            status: FarmStatus::Active,
        };
        proof {
            let m = new_farm_model(input, now);
            assert(farm@.reward_per_share =~= m.reward_per_share);
            assert(farm@.remaining_reward =~= m.remaining_reward);
            assert(farm@ == m);
            assert(m.session_interval > 0) by (nonlinear_arith)
                requires
                    input.session_interval_sec > 0,
                    m.session_interval == secs_to_nanos(input.session_interval_sec),
            ;
        }
        let ghost before = *self;
        self.farms.push(farm);
        self.farm_count = farm_id + 1;
        proof {
            assert forall|i: int| 0 <= i < self.farms@.len() implies (#[trigger] self.farms@[i])@.wf() by {
                if i < before.farms@.len() {
                    assert(self.farms@[i] == before.farms@[i]);
                }
            }
            assert forall|i: int| 0 <= i < self.stakes@.len() implies (#[trigger] self.stakes@[i]).farm_id
                < self.farm_count && self.stakes@[i].info@.wf(
                self.farm(self.stakes@[i].farm_id as int).slots(),
            ) by {
                assert(self.farms@[self.stakes@[i].farm_id as int] == before.farms@[self.stakes@[i].farm_id as int]);
            }
        }
        Ok(farm_id)
    }

    /// Brings farm `farm_id` up to `now`.
    pub fn update_farm(&mut self, farm_id: u64, now: u64)
        requires
            old(self).wf(),
            farm_id < old(self).farm_count,
        ensures
            final(self).wf(),
            final(self).farm(farm_id as int) == old(self).farm(farm_id as int).caught_up(now),
            old(self).same_except(*final(self), farm_id, Seq::empty()),
            final(self).stakes == old(self).stakes,
    {
        let ghost before = *self;
        let n = self.farms.len();
        assert(farm_id < n);
        let idx = farm_id as usize;
        let mut farm = self.farms[idx].copy();
        farm.update_farm(now);
        self.farms.set(idx, farm);
        proof {
            assert forall|i: int| 0 <= i < self.farms@.len() implies (#[trigger] self.farms@[i])@.wf() by {
                if i != farm_id {
                    assert(self.farms@[i] == before.farms@[i]);
                }
            }
            assert forall|i: int| 0 <= i < self.stakes@.len() implies (#[trigger] self.stakes@[i]).farm_id
                < self.farm_count && self.stakes@[i].info@.wf(
                self.farm(self.stakes@[i].farm_id as int).slots(),
            ) by {
                let f = self.stakes@[i].farm_id as int;
                if f != farm_id {
                    assert(self.farms@[f] == before.farms@[f]);
                }
            }
        }
    }

    fn stake_index(&self, account: &String, farm_id: u64) -> (r: Option<usize>)
        requires
            self.wf(),
        ensures
            r matches Some(k) ==> k < self.stakes@.len() && stake_key_at(
                self.stakes@,
                k as int,
                account@,
                farm_id,
            ) && self.stake(account@, farm_id) == Some(self.stakes@[k as int].info@),
            r is None ==> self.stake(account@, farm_id) is None,
    {
        let mut i: usize = 0;
        while i < self.stakes.len()
            invariant
                self.wf(),
                i <= self.stakes@.len(),
                forall|j: int| 0 <= j < i ==> !stake_key_at(self.stakes@, j, account@, farm_id),
            decreases self.stakes@.len() - i,
        {
            if self.stakes[i].farm_id == farm_id && self.stakes[i].account == *account {
                proof {
                    lemma_find_stake_at(self.stakes@, i as int);
                }
                return Some(i);
            }
            i = i + 1;
        }
        None
    }

    pub(crate) fn farm_index(&self, farm_id: u64) -> (r: usize)
        requires
            self.wf(),
            farm_id < self.farm_count,
        ensures
            r == farm_id,
    {
        let n = self.farms.len();
        assert(farm_id < n);
        farm_id as usize
    }

    /// Checks of a funding of farm `farm_id` with `token`, in the order made.
    pub open spec fn reward_check(self, farm_id: u64, token: Seq<char>) -> Result<(), FarmError> {
        if farm_id >= self.farm_count {
            Err(FarmError::FarmNotFound)
        } else if forall|j: int|
            0 <= j < self.farm(farm_id as int).reward_tokens.len() ==> self.farm(
                farm_id as int,
            ).reward_tokens[j]@ != token {
            Err(FarmError::NotRewardToken)
        } else {
            Ok(())
        }
    }

    /// What a funding of farm `farm_id` with `amount` of `token` leaves, given its result `r`.
    pub open spec fn reward_post(
        self,
        new: Self,
        farm_id: u64,
        token: Seq<char>,
        amount: u128,
        r: Result<(), FarmError>,
    ) -> bool {
        match self.reward_check(farm_id, token) {
            Err(e) => r == Err::<(), FarmError>(e) && new == self,
            Ok(()) => {
                let f = self.farm(farm_id as int);
                &&& r is Ok
                &&& exists|i: int|
                    is_first_slot(f.reward_tokens, token, i) && new.farm(farm_id as int) == FarmModel {
                        remaining_reward: f.remaining_reward.update(
                            i,
                            sat_add(f.remaining_reward[i] as int, amount as int) as u128,
                        ),
                        ..f
                    }
                &&& self.same_except(new, farm_id, Seq::empty())
                &&& new.stakes == self.stakes
            },
        }
    }

    /// Adds `amount` of `token_in` to the pool of the slot of farm `farm_id`
    /// that pays out `token_in`. No catch-up is needed.
    pub fn add_reward(&mut self, farm_id: u64, token_in: &String, amount: u128) -> (r: Result<
        (),
        FarmError,
    >)
        requires
            old(self).wf(),
        ensures
            final(self).wf(),
            old(self).reward_post(*final(self), farm_id, token_in@, amount, r),
    {
        if farm_id >= self.farm_count {
            return Err(FarmError::FarmNotFound);
        }
        let fid = self.farm_index(farm_id);
        let pos = match self.farms[fid].reward_slot(token_in) {
            None => {
                return Err(FarmError::NotRewardToken);
            },
            Some(p) => p,
        };
        let ghost before = *self;
        let mut farm = self.farms[fid].copy();
        let pool = farm.remaining_reward[pos].saturating_add(amount);
        farm.remaining_reward.set(pos, pool);
        self.farms.set(fid, farm);
        proof {
            let f = before.farm(farm_id as int);
            assert(is_first_slot(f.reward_tokens, token_in@, pos as int));
            assert forall|i: int| 0 <= i < self.farms@.len() implies (#[trigger] self.farms@[i])@.wf() by {
                if i != farm_id {
                    assert(self.farms@[i] == before.farms@[i]);
                }
            }
            assert forall|i: int| 0 <= i < self.stakes@.len() implies (#[trigger] self.stakes@[i]).farm_id
                < self.farm_count && self.stakes@[i].info@.wf(
                self.farm(self.stakes@[i].farm_id as int).slots(),
            ) by {
                let g = self.stakes@[i].farm_id as int;
                if g != farm_id {
                    assert(self.farms@[g] == before.farms@[g]);
                }
            }
        }
        Ok(())
    }

    /// Checks of a stake of `token` by `sender` into farm `farm_id`, in the order made.
    pub open spec fn stake_check(
        self,
        farm_id: u64,
        token: Seq<char>,
        sender: Seq<char>,
        byte_cost: u128,
    ) -> Result<(), FarmError> {
        if farm_id >= self.farm_count {
            Err(FarmError::FarmNotFound)
        } else if self.farm(farm_id as int).status == FarmStatus::Ended {
            Err(FarmError::FarmEnded)
        } else if self.farm(farm_id as int).staking_token != token {
            Err(FarmError::WrongStakingToken)
        } else if self.stake(sender, farm_id) is None {
            storage_check(
                self.deposit(sender),
                stake_storage_bytes(self.farm(farm_id as int).slots()),
                byte_cost,
            )
        } else {
            Ok(())
        }
    }

    /// The stake of `sender` in farm `farm_id` after it staked `amount` at `now`.
    pub open spec fn stake_after(self, farm_id: u64, amount: u128, sender: Seq<char>, now: u64) -> StakeModel {
        let f = self.farm(farm_id as int).caught_up(now);
        let lock = add_u64_sat(now, f.lockup_period);
        let base = match self.stake(sender, farm_id) {
            Some(s) => s,
            None => StakeModel {
                amount: 0,
                lockup_end: lock,
                reward_debt: Seq::new(f.reward_tokens.len(), |i: int| 0u128),
                accrued_rewards: Seq::new(f.reward_tokens.len(), |i: int| 0u128),
            },
        };
        let s = base.settled(f.reward_per_share);
        StakeModel {
            amount: sat_add(s.amount as int, amount as int) as u128,
            lockup_end: if lock > s.lockup_end {
                lock
            } else {
                s.lockup_end
            },
            ..s
        }
    }

    /// What a stake of `amount` of `token` by `sender` into farm `farm_id` at
    /// `now` leaves, given its result `r`.
    pub open spec fn stake_post(
        self,
        new: Self,
        farm_id: u64,
        token: Seq<char>,
        amount: u128,
        sender: Seq<char>,
        now: u64,
        byte_cost: u128,
        r: Result<(), FarmError>,
    ) -> bool {
        match self.stake_check(farm_id, token, sender, byte_cost) {
            Err(e) => r == Err::<(), FarmError>(e) && new == self,
            Ok(()) => {
                let f = self.farm(farm_id as int).caught_up(now);
                &&& r is Ok
                &&& new.farm(farm_id as int) == FarmModel {
                    total_staked: sat_add(f.total_staked as int, amount as int) as u128,
                    ..f
                }
                &&& new.stake(sender, farm_id) == Some(self.stake_after(farm_id, amount, sender, now))
                &&& self.same_except(new, farm_id, sender)
                &&& record_written(self.stakes@, new.stakes@, sender, farm_id)
            },
        }
    }

    /// Stakes `amount` of `token_in` for `sender` in farm `farm_id` at `now`:
    /// catches the farm up, settles the sender's pending credit, adds the
    /// principal and pushes the lockup out to `now + lockup_period` unless it
    /// already ends later. A first stake needs prepaid storage for its record.
    pub fn stake_tokens(
        &mut self,
        farm_id: u64,
        token_in: &String,
        amount: u128,
        sender: &String,
        now: u64,
        byte_cost: u128,
    ) -> (r: Result<(), FarmError>)
        requires
            old(self).wf(),
        ensures
            final(self).wf(),
            old(self).stake_post(*final(self), farm_id, token_in@, amount, sender@, now, byte_cost, r),
    {
        if farm_id >= self.farm_count {
            return Err(FarmError::FarmNotFound);
        }
        let fid = self.farm_index(farm_id);
        if self.farms[fid].status == FarmStatus::Ended {
            return Err(FarmError::FarmEnded);
        }
        if !(self.farms[fid].staking_token == *token_in) {
            return Err(FarmError::WrongStakingToken);
        }
        let slots = self.farms[fid].reward_tokens.len();
        let idx = self.stake_index(sender, farm_id);
        if idx.is_none() {
            match self.assert_storage_sufficient(sender, Self::estimate_stake_storage(slots), byte_cost) {
                Err(e) => {
                    return Err(e);
                },
                Ok(()) => {},
            }
        }
        let ghost before = *self;
        proof {
            if idx is Some {
                before.lemma_stake_wf(sender@, farm_id);
            }
        }
        self.update_farm(farm_id, now);
        let ghost caught = *self;
        let lock = now.saturating_add(self.farms[fid].lockup_period);
        let mut info = match idx {
            Some(k) => self.stakes[k].info.copy(),
            None => StakeInfo::empty(slots, lock),
        };
        proof {
            let f = before.farm(farm_id as int).caught_up(now);
            if idx is None {
                assert(info@.reward_debt =~= Seq::new(f.reward_tokens.len(), |i: int| 0u128));
                assert(info@.accrued_rewards =~= Seq::new(f.reward_tokens.len(), |i: int| 0u128));
            }
        }
        info.settle(&self.farms[fid].reward_per_share);
        info.amount = info.amount.saturating_add(amount);
        if lock > info.lockup_end {
            info.lockup_end = lock;
        }
        let mut farm = self.farms[fid].copy();
        farm.total_staked = farm.total_staked.saturating_add(amount);
        self.farms.set(fid, farm);
        let entry = StakeEntry { account: sender.clone(), farm_id, info };
        match idx {
            Some(k) => {
                proof {
                    lemma_find_stake_update(self.stakes@, k as int, entry);
                }
                self.stakes.set(k, entry);
                proof {
                    assert(self.stakes@ =~= before.stakes@.update(k as int, self.stakes@[k as int]));
                    assert(rewritten_at(before.stakes@, self.stakes@, k as int));
                    assert(stake_key_at(before.stakes@, k as int, sender@, farm_id));
                    assert(record_written(before.stakes@, self.stakes@, sender@, farm_id));
                }
            },
            None => {
                proof {
                    lemma_find_stake_push(self.stakes@, entry);
                }
                self.stakes.push(entry);
                proof {
                    assert(before.stake(sender@, farm_id) is None);
                    assert(self.stakes@.drop_last() =~= before.stakes@);
                    assert(record_written(before.stakes@, self.stakes@, sender@, farm_id));
                }
            },
        }
        proof {
            assert forall|i: int| 0 <= i < self.farms@.len() implies (#[trigger] self.farms@[i])@.wf() by {
                if i != farm_id {
                    assert(self.farms@[i] == caught.farms@[i]);
                }
            }
            assert forall|i: int| 0 <= i < self.stakes@.len() implies (#[trigger] self.stakes@[i]).farm_id
                < self.farm_count && self.stakes@[i].info@.wf(
                self.farm(self.stakes@[i].farm_id as int).slots(),
            ) by {
                let g = self.stakes@[i].farm_id as int;
                if g != farm_id {
                    assert(self.farms@[g] == caught.farms@[g]);
                }
                if i < caught.stakes@.len() && !(idx == Some(i as usize)) {
                    assert(self.stakes@[i] == caught.stakes@[i]);
                }
            }
        }
        Ok(())
    }


    /// Checks of a claim by `user` in farm `farm_id`, in the order made.
    pub open spec fn claim_check(self, farm_id: u64, user: Seq<char>) -> Result<(), FarmError> {
        if farm_id >= self.farm_count {
            Err(FarmError::FarmNotFound)
        } else if self.stake(user, farm_id) is None {
            Err(FarmError::StakeNotFound)
        } else {
            Ok(())
        }
    }

    /// The stake of `user` in farm `farm_id` settled at `now`, before it is paid out.
    pub open spec fn settled_at(self, farm_id: u64, user: Seq<char>, now: u64) -> StakeModel {
        self.stake(user, farm_id)->0.settled(self.farm(farm_id as int).caught_up(now).reward_per_share)
    }

    /// What a successful claim by `user` in farm `farm_id` at `now` leaves,
    /// with `paid` the transfers it returned.
    pub open spec fn claim_post(self, new: Self, farm_id: u64, user: Seq<char>, now: u64, paid: Seq<TransferModel>) -> bool {
        let f = self.farm(farm_id as int).caught_up(now);
        let s = self.settled_at(farm_id, user, now);
        &&& new.farm(farm_id as int) == f
        &&& new.stake(user, farm_id) == Some(
            StakeModel { accrued_rewards: Seq::new(s.accrued_rewards.len(), |i: int| 0u128), ..s },
        )
        &&& paid == payouts(f.reward_tokens, s.accrued_rewards, user, f.slots())
        &&& self.same_except(new, farm_id, user)
        &&& record_written(self.stakes@, new.stakes@, user, farm_id)
    }

    /// Catches farm `farm_id` up to `now`, settles the caller's credit, and
    /// pays out every slot with a nonzero accrual: the accruals drop to zero
    /// and one transfer per such slot is returned, in slot order.
    pub fn claim_rewards(&mut self, user: &String, farm_id: u64, now: u64) -> (r: Result<
        Vec<Transfer>,
        FarmError,
    >)
        requires
            old(self).wf(),
        ensures
            final(self).wf(),
            r is Err ==> *final(self) == *old(self),
            old(self).claim_check(farm_id, user@) is Err ==> r is Err && r->Err_0 == old(
                self,
            ).claim_check(farm_id, user@)->Err_0,
            old(self).claim_check(farm_id, user@) is Ok ==> r is Ok,
            r is Ok ==> old(self).claim_post(*final(self), farm_id, user@, now, transfer_views(r->Ok_0@)),
    {
        if farm_id >= self.farm_count {
            return Err(FarmError::FarmNotFound);
        }
        let fid = self.farm_index(farm_id);
        let k = match self.stake_index(user, farm_id) {
            None => {
                return Err(FarmError::StakeNotFound);
            },
            Some(k) => k,
        };
        let ghost before = *self;
        proof {
            before.lemma_stake_wf(user@, farm_id);
        }
        self.update_farm(farm_id, now);
        let ghost caught = *self;
        let mut info = self.stakes[k].info.copy();
        info.settle(&self.farms[fid].reward_per_share);
        let ghost s = info@;
        let slots = self.farms[fid].reward_tokens.len();
        let mut out: Vec<Transfer> = Vec::new();
        let mut i: usize = 0;
        while i < slots
            invariant
                *self == caught,
                caught.wf(),
                fid == farm_id,
                farm_id < caught.farm_count,
                slots == caught.farm(farm_id as int).slots(),
                s.wf(slots as int),
                i <= slots,
                info@.amount == s.amount,
                info@.lockup_end == s.lockup_end,
                info@.reward_debt == s.reward_debt,
                info@.accrued_rewards.len() == slots,
                forall|j: int| 0 <= j < i ==> info@.accrued_rewards[j] == 0,
                forall|j: int| i <= j < slots ==> info@.accrued_rewards[j] == s.accrued_rewards[j],
                transfer_views(out@) == payouts(
                    caught.farm(farm_id as int).reward_tokens,
                    s.accrued_rewards,
                    user@,
                    i as int,
                ),
            decreases slots - i,
        {
            let amount = info.accrued_rewards[i];
            if amount > 0 {
                info.accrued_rewards.set(i, 0);
                let t = Transfer {
                    token: self.farms[fid].reward_tokens[i].clone(),
                    receiver: user.clone(),
                    amount,
                };
                let ghost prev = out@;
                out.push(t);
                assert(transfer_views(out@) =~= transfer_views(prev).push(t@));
            }
            i = i + 1;
        }
        let entry = StakeEntry { account: user.clone(), farm_id, info };
        proof {
            assert(info@.accrued_rewards =~= Seq::new(s.accrued_rewards.len(), |i: int| 0u128));
            lemma_find_stake_update(self.stakes@, k as int, entry);
        }
        self.stakes.set(k, entry);
        proof {
            assert forall|i: int| 0 <= i < self.stakes@.len() implies (#[trigger] self.stakes@[i]).farm_id
                < self.farm_count && self.stakes@[i].info@.wf(
                self.farm(self.stakes@[i].farm_id as int).slots(),
            ) by {
                if i != k {
                    assert(self.stakes@[i] == caught.stakes@[i]);
                }
            }
            assert(self.stakes@ =~= before.stakes@.update(k as int, self.stakes@[k as int]));
            assert(rewritten_at(before.stakes@, self.stakes@, k as int));
            assert(stake_key_at(before.stakes@, k as int, user@, farm_id));
            assert(record_written(before.stakes@, self.stakes@, user@, farm_id));
        }
        Ok(out)
    }

    /// Checks of a withdrawal of `amount` by `user` from farm `farm_id` at `now`, in the order made.
    pub open spec fn withdraw_check(self, farm_id: u64, user: Seq<char>, amount: u128, now: u64) -> Result<
        (),
        FarmError,
    > {
        if farm_id >= self.farm_count {
            Err(FarmError::FarmNotFound)
        } else if self.stake(user, farm_id) is None {
            Err(FarmError::StakeNotFound)
        } else if now < self.stake(user, farm_id)->0.lockup_end {
            Err(FarmError::LockupNotExpired)
        } else if self.stake(user, farm_id)->0.amount < amount {
            Err(FarmError::InsufficientStake)
        } else {
            Ok(())
        }
    }

    /// What a successful withdrawal of `amount` by `user` from farm
    /// `farm_id` at `now` leaves, with `sent` the transfer it returned.
    pub open spec fn withdraw_post(
        self,
        new: Self,
        farm_id: u64,
        user: Seq<char>,
        amount: u128,
        now: u64,
        sent: TransferModel,
    ) -> bool {
        let f = self.farm(farm_id as int).caught_up(now);
        let s = self.settled_at(farm_id, user, now);
        &&& new.farm(farm_id as int) == FarmModel {
            total_staked: sat_sub(f.total_staked as int, amount as int) as u128,
            ..f
        }
        &&& new.stake(user, farm_id) == if s.amount == amount {
            None
        } else {
            Some(StakeModel { amount: (s.amount - amount) as u128, ..s })
        }
        &&& sent == TransferModel { token: f.staking_token, receiver: user, amount }
        &&& self.same_except(new, farm_id, user)
        &&& record_written(self.stakes@, new.stakes@, user, farm_id)
    }

    /// Takes `amount` of principal back for `user` from farm `farm_id` at
    /// `now`, once the lockup has passed: catches the farm up, settles the
    /// caller's credit, lowers stake and total, and returns the transfer of
    /// the principal. A stake left empty is removed, and with it any
    /// unclaimed credit.
    pub fn withdraw(&mut self, user: &String, farm_id: u64, amount: u128, now: u64) -> (r: Result<
        Transfer,
        FarmError,
    >)
        requires
            old(self).wf(),
        ensures
            final(self).wf(),
            r is Err ==> *final(self) == *old(self),
            old(self).withdraw_check(farm_id, user@, amount, now) is Err ==> r is Err && r->Err_0
                == old(self).withdraw_check(farm_id, user@, amount, now)->Err_0,
            old(self).withdraw_check(farm_id, user@, amount, now) is Ok ==> r is Ok,
            r is Ok ==> old(self).withdraw_post(*final(self), farm_id, user@, amount, now, r->Ok_0@),
    {
        if farm_id >= self.farm_count {
            return Err(FarmError::FarmNotFound);
        }
        let fid = self.farm_index(farm_id);
        let k = match self.stake_index(user, farm_id) {
            None => {
                return Err(FarmError::StakeNotFound);
            },
            Some(k) => k,
        };
        if now < self.stakes[k].info.lockup_end {
            return Err(FarmError::LockupNotExpired);
        }
        if self.stakes[k].info.amount < amount {
            return Err(FarmError::InsufficientStake);
        }
        let ghost before = *self;
        proof {
            before.lemma_stake_wf(user@, farm_id);
        }
        self.update_farm(farm_id, now);
        let ghost caught = *self;
        let mut info = self.stakes[k].info.copy();
        info.settle(&self.farms[fid].reward_per_share);
        info.amount = info.amount - amount;
        let mut farm = self.farms[fid].copy();
        farm.total_staked = farm.total_staked.saturating_sub(amount);
        let transfer = Transfer { token: farm.staking_token.clone(), receiver: user.clone(), amount };
        self.farms.set(fid, farm);
        let ghost mid = *self;
        if info.amount == 0 {
            proof {
                lemma_find_stake_swap_remove(self.stakes@, k as int);
            }
            self.stakes.swap_remove(k);
            proof {
                assert(stake_key_at(before.stakes@, k as int, user@, farm_id));
                assert(self.stakes@ == swap_removed(before.stakes@, k as int));
                let last = mid.stakes@.len() - 1;
                assert forall|i: int| 0 <= i < self.stakes@.len() implies (#[trigger] self.stakes@[i]).farm_id
                    < self.farm_count && self.stakes@[i].info@.wf(
                    self.farm(self.stakes@[i].farm_id as int).slots(),
                ) by {
                    let si = if i == k { last } else { i };
                    assert(self.stakes@[i] == mid.stakes@[si]);
                    let g = self.stakes@[i].farm_id as int;
                    if g != farm_id {
                        assert(self.farms@[g] == caught.farms@[g]);
                    }
                }
            }
        } else {
            let entry = StakeEntry { account: user.clone(), farm_id, info };
            proof {
                lemma_find_stake_update(self.stakes@, k as int, entry);
            }
            self.stakes.set(k, entry);
            proof {
                assert(self.stakes@ =~= before.stakes@.update(k as int, self.stakes@[k as int]));
                assert(rewritten_at(before.stakes@, self.stakes@, k as int));
                assert(stake_key_at(before.stakes@, k as int, user@, farm_id));
                assert forall|i: int| 0 <= i < self.stakes@.len() implies (#[trigger] self.stakes@[i]).farm_id
                    < self.farm_count && self.stakes@[i].info@.wf(
                    self.farm(self.stakes@[i].farm_id as int).slots(),
                ) by {
                    if i != k {
                        assert(self.stakes@[i] == mid.stakes@[i]);
                    }
                    let g = self.stakes@[i].farm_id as int;
                    if g != farm_id {
                        assert(self.farms@[g] == caught.farms@[g]);
                    }
                }
            }
        }
        proof {
            assert forall|i: int| 0 <= i < self.farms@.len() implies (#[trigger] self.farms@[i])@.wf() by {
                if i != farm_id {
                    assert(self.farms@[i] == caught.farms@[i]);
                }
            }
        }
        Ok(transfer)
    }

    /// Routes an inbound transfer of `amount` of `token_in` from `sender_id`
    /// by its message: `STAKE:<id>` stakes, `ADD_REWARD:<id>` funds. Returns
    /// the amount to hand back to the sender: all of it for a message that
    /// routes nowhere, none once the action was taken.
    pub fn ft_on_transfer(
        &mut self,
        token_in: &String,
        sender_id: &String,
        amount: u128,
        msg: &String,
        now: u64,
        byte_cost: u128,
    ) -> (r: Result<u128, FarmError>)
        requires
            old(self).wf(),
        ensures
            final(self).wf(),
            r is Ok ==> r == Ok::<u128, FarmError>(
                if parse_message(msg@) is None {
                    amount
                } else {
                    0
                },
            ),
            parse_message(msg@) is None ==> r is Ok && *final(self) == *old(self),
            parse_message(msg@) matches Some((TransferAction::Stake, id)) ==> old(self).stake_post(
                *final(self),
                id,
                token_in@,
                amount,
                sender_id@,
                now,
                byte_cost,
                match r {
                    Ok(_) => Ok(()),
                    Err(e) => Err(e),
                },
            ),
            parse_message(msg@) matches Some((TransferAction::AddReward, id)) ==> old(
                self,
            ).reward_post(
                *final(self),
                id,
                token_in@,
                amount,
                match r {
                    Ok(_) => Ok(()),
                    Err(e) => Err(e),
                },
            ),
    {
        match parse_message_exec(msg) {
            None => Ok(amount),
            Some((TransferAction::Stake, id)) => match self.stake_tokens(
                id,
                token_in,
                amount,
                sender_id,
                now,
                byte_cost,
            ) {
                Ok(()) => Ok(0),
                Err(e) => Err(e),
            },
            Some((TransferAction::AddReward, id)) => match self.add_reward(id, token_in, amount) {
                Ok(()) => Ok(0),
                Err(e) => Err(e),
            },
        }
    }

}

/// `s` seconds in nanoseconds, clamped to `u64::MAX`.
pub fn nanos_of(s: u64) -> (r: u64)
    ensures
        r == secs_to_nanos(s),
{
    match s.checked_mul(NANOS_PER_SEC) {
        Some(v) => v,
        None => u64::MAX,
    }
}

} // verus!
