use vstd::prelude::*;

use crate::stake::{StakeInfo, StakeModel};

verus! {

/// A stake record under its key (account, farm id).
pub struct StakeEntry {
    pub account: String,
    pub farm_id: u64,
    pub info: StakeInfo,
}

/// An account's prepaid storage balance.
pub struct DepositEntry {
    pub account: String,
    pub balance: u128,
}

pub open spec fn stake_key_at(s: Seq<StakeEntry>, i: int, account: Seq<char>, farm_id: u64) -> bool {
    0 <= i < s.len() && s[i].account@ == account && s[i].farm_id == farm_id
}

/// No two records share a key.
pub open spec fn unique_stakes(s: Seq<StakeEntry>) -> bool {
    forall|i: int, j: int|
        #![trigger s[i], s[j]]
        0 <= i < s.len() && 0 <= j < s.len() && i != j ==> !(s[i].account@ == s[j].account@
            && s[i].farm_id == s[j].farm_id)
}

/// The stake recorded under (account, farm id), if any.
pub open spec fn find_stake(s: Seq<StakeEntry>, account: Seq<char>, farm_id: u64) -> Option<
    StakeModel,
> {
    if exists|i: int| stake_key_at(s, i, account, farm_id) {
        Some(s[choose|i: int| stake_key_at(s, i, account, farm_id)].info@)
    } else {
        None
    }
}

pub open spec fn deposit_key_at(s: Seq<DepositEntry>, i: int, account: Seq<char>) -> bool {
    0 <= i < s.len() && s[i].account@ == account
}

/// No two balances belong to one account.
pub open spec fn unique_deposits(s: Seq<DepositEntry>) -> bool {
    forall|i: int, j: int|
        #![trigger s[i], s[j]]
        0 <= i < s.len() && 0 <= j < s.len() && i != j ==> s[i].account@ != s[j].account@
}

/// Prepaid balance of `account`; zero when it never paid.
pub open spec fn find_deposit(s: Seq<DepositEntry>, account: Seq<char>) -> u128 {
    if exists|i: int| deposit_key_at(s, i, account) {
        s[choose|i: int| deposit_key_at(s, i, account)].balance
    } else {
        0
    }
}

pub proof fn lemma_find_stake_at(s: Seq<StakeEntry>, k: int)
    requires
        unique_stakes(s),
        0 <= k < s.len(),
    ensures
        find_stake(s, s[k].account@, s[k].farm_id) == Some(s[k].info@),
{
    assert(stake_key_at(s, k, s[k].account@, s[k].farm_id));
    let j = choose|i: int| stake_key_at(s, i, s[k].account@, s[k].farm_id);
    assert(s[j] == s[k] || j == k);
}

pub proof fn lemma_find_stake_update(s: Seq<StakeEntry>, k: int, e: StakeEntry)
    requires
        unique_stakes(s),
        0 <= k < s.len(),
        e.account@ == s[k].account@,
        e.farm_id == s[k].farm_id,
    ensures
        unique_stakes(s.update(k, e)),
        forall|a: Seq<char>, f: u64|
            #[trigger] find_stake(s.update(k, e), a, f) == if a == e.account@ && f == e.farm_id {
                Some(e.info@)
            } else {
                find_stake(s, a, f)
            },
{
    let t = s.update(k, e);
    assert forall|i: int, j: int|
        #![trigger t[i], t[j]]
        0 <= i < t.len() && 0 <= j < t.len() && i != j implies !(t[i].account@ == t[j].account@
            && t[i].farm_id == t[j].farm_id) by {
        assert(s[i] == s[i] && s[j] == s[j]);
    }
    assert forall|a: Seq<char>, f: u64|
        #[trigger] find_stake(t, a, f) == if a == e.account@ && f == e.farm_id {
            Some(e.info@)
        } else {
            find_stake(s, a, f)
        } by {
        if a == e.account@ && f == e.farm_id {
            lemma_find_stake_at(t, k);
        } else {
            if exists|i: int| stake_key_at(s, i, a, f) {
                let i = choose|i: int| stake_key_at(s, i, a, f);
                assert(stake_key_at(t, i, a, f));
                lemma_find_stake_at(s, i);
                lemma_find_stake_at(t, i);
            } else {
                assert forall|i: int| !stake_key_at(t, i, a, f) by {
                    if stake_key_at(t, i, a, f) {
                        assert(stake_key_at(s, i, a, f));
                    }
                }
            }
        }
    }
}

pub proof fn lemma_find_stake_push(s: Seq<StakeEntry>, e: StakeEntry)
    requires
        unique_stakes(s),
        find_stake(s, e.account@, e.farm_id) is None,
    ensures
        unique_stakes(s.push(e)),
        forall|a: Seq<char>, f: u64|
            #[trigger] find_stake(s.push(e), a, f) == if a == e.account@ && f == e.farm_id {
                Some(e.info@)
            } else {
                find_stake(s, a, f)
            },
{
    let t = s.push(e);
    assert forall|i: int, j: int|
        #![trigger t[i], t[j]]
        0 <= i < t.len() && 0 <= j < t.len() && i != j implies !(t[i].account@ == t[j].account@
            && t[i].farm_id == t[j].farm_id) by {
        if i == s.len() as int {
            assert(!stake_key_at(s, j, e.account@, e.farm_id));
        } else if j == s.len() as int {
            assert(!stake_key_at(s, i, e.account@, e.farm_id));
        } else {
            assert(t[i] == s[i] && t[j] == s[j]);
        }
    }
    assert forall|a: Seq<char>, f: u64|
        #[trigger] find_stake(t, a, f) == if a == e.account@ && f == e.farm_id {
            Some(e.info@)
        } else {
            find_stake(s, a, f)
        } by {
        if a == e.account@ && f == e.farm_id {
            assert(t[s.len() as int] == e);
            lemma_find_stake_at(t, s.len() as int);
        } else {
            if exists|i: int| stake_key_at(s, i, a, f) {
                let i = choose|i: int| stake_key_at(s, i, a, f);
                assert(t[i] == s[i]);
                lemma_find_stake_at(s, i);
                lemma_find_stake_at(t, i);
            } else {
                assert forall|i: int| !stake_key_at(t, i, a, f) by {
                    if stake_key_at(t, i, a, f) && i < s.len() {
                        assert(t[i] == s[i]);
                        assert(stake_key_at(s, i, a, f));
                    }
                }
            }
        }
    }
}

/// `new` is `old` with the record at `k` rewritten under the same key.
pub open spec fn rewritten_at(old: Seq<StakeEntry>, new: Seq<StakeEntry>, k: int) -> bool {
    &&& 0 <= k < old.len()
    &&& new == old.update(k, new[k])
    &&& new[k].account@ == old[k].account@
    &&& new[k].farm_id == old[k].farm_id
}

/// The only change from `old` to `new` is to the record of (account,
/// farm id): rewritten in place, removed, or appended when there was none.
pub open spec fn record_written(old: Seq<StakeEntry>, new: Seq<StakeEntry>, account: Seq<char>, farm_id: u64) -> bool {
    ||| exists|k: int|
        #[trigger] stake_key_at(old, k, account, farm_id) && (rewritten_at(old, new, k) || new == swap_removed(
            old,
            k,
        ))
    ||| {
        &&& find_stake(old, account, farm_id) is None
        &&& new.len() == old.len() + 1
        &&& new.drop_last() == old
        &&& new.last().account@ == account
        &&& new.last().farm_id == farm_id
    }
}

/// What `Vec::swap_remove(k)` leaves of `s`.
pub open spec fn swap_removed<T>(s: Seq<T>, k: int) -> Seq<T> {
    s.update(k, s.last()).drop_last()
}

pub proof fn lemma_find_stake_swap_remove(s: Seq<StakeEntry>, k: int)
    requires
        unique_stakes(s),
        0 <= k < s.len(),
    ensures
        unique_stakes(swap_removed(s, k)),
        forall|a: Seq<char>, f: u64|
            #[trigger] find_stake(swap_removed(s, k), a, f) == if a == s[k].account@ && f
                == s[k].farm_id {
                None
            } else {
                find_stake(s, a, f)
            },
{
    let t = swap_removed(s, k);
    let last = s.len() - 1;
    // every entry of t sits somewhere in s
    assert forall|i: int| 0 <= i < t.len() implies #[trigger] t[i] == s[if i == k { last } else { i }] by {}
    assert forall|i: int, j: int|
        #![trigger t[i], t[j]]
        0 <= i < t.len() && 0 <= j < t.len() && i != j implies !(t[i].account@ == t[j].account@
            && t[i].farm_id == t[j].farm_id) by {
        let si = if i == k { last } else { i };
        let sj = if j == k { last } else { j };
        assert(t[i] == s[si] && t[j] == s[sj]);
    }
    assert forall|a: Seq<char>, f: u64|
        #[trigger] find_stake(t, a, f) == if a == s[k].account@ && f == s[k].farm_id {
            None
        } else {
            find_stake(s, a, f)
        } by {
        if a == s[k].account@ && f == s[k].farm_id {
            assert forall|i: int| !stake_key_at(t, i, a, f) by {
                if stake_key_at(t, i, a, f) {
                    let si = if i == k { last } else { i };
                    assert(t[i] == s[si]);
                    assert(s[si] == s[si] && s[k] == s[k]);
                }
            }
        } else {
            if exists|i: int| stake_key_at(s, i, a, f) {
                let i = choose|i: int| stake_key_at(s, i, a, f);
                lemma_find_stake_at(s, i);
                assert(i != k);
                let ti = if i == last { k } else { i };
                assert(t[ti] == s[i]);
                assert(stake_key_at(t, ti, a, f));
                lemma_find_stake_at(t, ti);
            } else {
                assert forall|i: int| !stake_key_at(t, i, a, f) by {
                    if stake_key_at(t, i, a, f) {
                        let si = if i == k { last } else { i };
                        assert(t[i] == s[si]);
                        assert(stake_key_at(s, si, a, f));
                    }
                }
            }
        }
    }
}

pub proof fn lemma_find_deposit_at(s: Seq<DepositEntry>, k: int)
    requires
        unique_deposits(s),
        0 <= k < s.len(),
    ensures
        find_deposit(s, s[k].account@) == s[k].balance,
{
    assert(deposit_key_at(s, k, s[k].account@));
    let j = choose|i: int| deposit_key_at(s, i, s[k].account@);
    assert(s[j] == s[k] || j == k);
}

pub proof fn lemma_find_deposit_update(s: Seq<DepositEntry>, k: int, e: DepositEntry)
    requires
        unique_deposits(s),
        0 <= k < s.len(),
        e.account@ == s[k].account@,
    ensures
        unique_deposits(s.update(k, e)),
        forall|a: Seq<char>|
            #[trigger] find_deposit(s.update(k, e), a) == if a == e.account@ {
                e.balance
            } else {
                find_deposit(s, a)
            },
{
    let t = s.update(k, e);
    assert forall|i: int, j: int|
        #![trigger t[i], t[j]]
        0 <= i < t.len() && 0 <= j < t.len() && i != j implies t[i].account@ != t[j].account@ by {
        assert(s[i] == s[i] && s[j] == s[j]);
    }
    assert forall|a: Seq<char>|
        #[trigger] find_deposit(t, a) == if a == e.account@ {
            e.balance
        } else {
            find_deposit(s, a)
        } by {
        if a == e.account@ {
            lemma_find_deposit_at(t, k);
        } else {
            if exists|i: int| deposit_key_at(s, i, a) {
                let i = choose|i: int| deposit_key_at(s, i, a);
                assert(deposit_key_at(t, i, a));
                lemma_find_deposit_at(s, i);
                lemma_find_deposit_at(t, i);
            } else {
                assert forall|i: int| !deposit_key_at(t, i, a) by {
                    if deposit_key_at(t, i, a) {
                        assert(deposit_key_at(s, i, a));
                    }
                }
            }
        }
    }
}

pub proof fn lemma_find_deposit_push(s: Seq<DepositEntry>, e: DepositEntry)
    requires
        unique_deposits(s),
        forall|i: int| !deposit_key_at(s, i, e.account@),
    ensures
        unique_deposits(s.push(e)),
        forall|a: Seq<char>|
            #[trigger] find_deposit(s.push(e), a) == if a == e.account@ {
                e.balance
            } else {
                find_deposit(s, a)
            },
{
    let t = s.push(e);
    assert forall|i: int, j: int|
        #![trigger t[i], t[j]]
        0 <= i < t.len() && 0 <= j < t.len() && i != j implies t[i].account@ != t[j].account@ by {
        if i == s.len() as int {
            assert(!deposit_key_at(s, j, e.account@));
        } else if j == s.len() as int {
            assert(!deposit_key_at(s, i, e.account@));
        } else {
            assert(t[i] == s[i] && t[j] == s[j]);
        }
    }
    assert forall|a: Seq<char>|
        #[trigger] find_deposit(t, a) == if a == e.account@ {
            e.balance
        } else {
            find_deposit(s, a)
        } by {
        if a == e.account@ {
            assert(t[s.len() as int] == e);
            lemma_find_deposit_at(t, s.len() as int);
        } else {
            if exists|i: int| deposit_key_at(s, i, a) {
                let i = choose|i: int| deposit_key_at(s, i, a);
                assert(t[i] == s[i]);
                lemma_find_deposit_at(s, i);
                lemma_find_deposit_at(t, i);
            } else {
                assert forall|i: int| !deposit_key_at(t, i, a) by {
                    if deposit_key_at(t, i, a) && i < s.len() {
                        assert(t[i] == s[i]);
                        assert(deposit_key_at(s, i, a));
                    }
                }
            }
        }
    }
}

} // verus!
