use vstd::prelude::*;

use crate::ledger::swap_removed;

verus! {

/// Kind of a registered child contract.
#[derive(Clone, Copy, Debug, PartialEq, Eq, Structural)]
pub enum ChildContractType {
    Farming,
    NFT,
    LP,
}

/// What the registry keeps of a child contract.
#[derive(Clone, Copy, Debug, PartialEq, Eq, Structural)]
pub struct ChildContractMetadata {
    pub contract_type: ChildContractType,
    /// Registration time, in nanoseconds.
    pub deployed_at: u64,
}

/// Why a registry call was refused. A refused call changes nothing.
#[derive(Clone, Copy, Debug, PartialEq, Eq, Structural)]
pub enum RegistryError {
    /// Only the owner may change the registry.
    NotOwner,
    /// The deployment this callback reports did not succeed.
    DeployFailed,
}

/// A registered child contract under its account.
pub struct ChildEntry {
    pub account: String,
    pub metadata: ChildContractMetadata,
}

/// Registry of child contracts, changed by its owner only.
pub struct MasterContract {
    pub child_contracts: Vec<ChildEntry>,
    pub owner: String,
}

/// `(account, metadata)` of every entry, in order.
pub open spec fn child_views(s: Seq<ChildEntry>) -> Seq<(Seq<char>, ChildContractMetadata)> {
    Seq::new(s.len(), |i: int| (s[i].account@, s[i].metadata))
}

/// Views of a list of `(account, metadata)` pairs.
pub open spec fn pair_views(s: Seq<(String, ChildContractMetadata)>) -> Seq<(Seq<char>, ChildContractMetadata)> {
    Seq::new(s.len(), |i: int| (s[i].0@, s[i].1))
}

impl MasterContract {
    /// The registered children, in registry order.
    pub open spec fn children(self) -> Seq<(Seq<char>, ChildContractMetadata)> {
        child_views(self.child_contracts@)
    }

    /// No account is registered twice.
    pub open spec fn wf(self) -> bool {
        forall|i: int, j: int|
            0 <= i < self.children().len() && 0 <= j < self.children().len() && i != j
                ==> #[trigger] self.children()[i].0 != #[trigger] self.children()[j].0
    }

    /// Position of `account` among the registered children, if present.
    pub open spec fn position(self, account: Seq<char>, k: int) -> bool {
        0 <= k < self.children().len() && self.children()[k].0 == account
    }

    /// `account` is registered.
    pub open spec fn registered(self, account: Seq<char>) -> bool {
        exists|k: int| self.position(account, k)
    }

    /// An empty registry owned by `owner`.
    pub fn new(owner: String) -> (r: Self)
        ensures
            r.wf(),
            r.children().len() == 0,
            r.owner@ == owner@,
    {
        MasterContract { child_contracts: Vec::new(), owner }
    }

    /// Refuses a `caller` other than the owner.
    pub fn assert_owner(&self, caller: &String) -> (r: Result<(), RegistryError>)
        ensures
            r is Ok <==> caller@ == self.owner@,
            r is Err ==> r == Err::<(), RegistryError>(RegistryError::NotOwner),
    {
        if *caller == self.owner {
            Ok(())
        } else {
            Err(RegistryError::NotOwner)
        }
    }

    fn index_of(&self, account: &String) -> (r: Option<usize>)
        ensures
            r matches Some(k) ==> self.position(account@, k as int),
            r is None ==> forall|k: int| !self.position(account@, k),
    {
        let mut i: usize = 0;
        while i < self.child_contracts.len()
            invariant
                i <= self.child_contracts@.len(),
                forall|k: int| 0 <= k < i ==> !self.position(account@, k),
            decreases self.child_contracts@.len() - i,
        {
            if self.child_contracts[i].account == *account {
                return Some(i);
            }
            i = i + 1;
        }
        proof {
            assert forall|k: int| !self.position(account@, k) by {
                if 0 <= k < self.child_contracts@.len() {
                    assert(k < i);
                }
            }
        }
        None
    }

    /// Owner only: records `child` as a contract of kind `contract_type`
    /// registered at `now`, replacing an earlier record of it.
    pub fn register_child_contract(
        &mut self,
        caller: &String,
        child: String,
        contract_type: ChildContractType,
        now: u64,
    ) -> (r: Result<(), RegistryError>)
        requires
            old(self).wf(),
        ensures
            final(self).wf(),
            final(self).owner == old(self).owner,
            caller@ != old(self).owner@ ==> r == Err::<(), RegistryError>(RegistryError::NotOwner)
                && *final(self) == *old(self),
            caller@ == old(self).owner@ ==> r is Ok && {
                let e = (child@, (ChildContractMetadata { contract_type, deployed_at: now }));
                if exists|k: int| old(self).position(child@, k) {
                    final(self).children() == old(self).children().update(
                        choose|k: int| old(self).position(child@, k),
                        e,
                    )
                } else {
                    final(self).children() == old(self).children().push(e)
                }
            },
    {
        match self.assert_owner(caller) {
            Err(e) => {
                return Err(e);
            },
            Ok(()) => {},
        }
        let metadata = ChildContractMetadata { contract_type, deployed_at: now };
        let ghost before = self.children();
        match self.index_of(&child) {
            Some(k) => {
                let entry = ChildEntry { account: child, metadata };
                self.child_contracts.set(k, entry);
                proof {
                    let j = choose|j: int| old(self).position(entry.account@, j);
                    assert(j == k);
                    assert(self.children() =~= before.update(k as int, (entry.account@, metadata)));
                    assert forall|i: int, j: int|
                        0 <= i < self.children().len() && 0 <= j < self.children().len() && i != j
                            implies #[trigger] self.children()[i].0 != #[trigger] self.children()[j].0 by {
                        assert(self.children()[i].0 == before[i].0);
                        assert(self.children()[j].0 == before[j].0);
                    }
                }
            },
            None => {
                let entry = ChildEntry { account: child, metadata };
                self.child_contracts.push(entry);
                proof {
                    assert(self.children() =~= before.push((entry.account@, metadata)));
                    assert forall|i: int, j: int|
                        0 <= i < self.children().len() && 0 <= j < self.children().len() && i != j
                            implies #[trigger] self.children()[i].0 != #[trigger] self.children()[j].0 by {
                        if i == before.len() {
                            assert(!old(self).position(entry.account@, j));
                        } else if j == before.len() {
                            assert(!old(self).position(entry.account@, i));
                        } else {
                            assert(self.children()[i] == before[i]);
                            assert(self.children()[j] == before[j]);
                        }
                    }
                }
            },
        }
        Ok(())
    }

    /// Owner only: forgets `child`; the last record takes its place.
    pub fn unregister_child_contract(&mut self, caller: &String, child: &String) -> (r: Result<
        (),
        RegistryError,
    >)
        requires
            old(self).wf(),
        ensures
            final(self).wf(),
            final(self).owner == old(self).owner,
            caller@ != old(self).owner@ ==> r == Err::<(), RegistryError>(RegistryError::NotOwner)
                && *final(self) == *old(self),
            caller@ == old(self).owner@ ==> r is Ok && if exists|k: int| old(self).position(child@, k) {
                final(self).children() == swap_removed(
                    old(self).children(),
                    choose|k: int| old(self).position(child@, k),
                )
            } else {
                final(self).children() == old(self).children()
            },
            caller@ == old(self).owner@ ==> !final(self).registered(child@),
            forall|a: Seq<char>|
                a != child@ ==> (#[trigger] final(self).registered(a) <==> old(self).registered(a)),
    {
        match self.assert_owner(caller) {
            Err(e) => {
                return Err(e);
            },
            Ok(()) => {},
        }
        let ghost before = self.children();
        match self.index_of(child) {
            Some(k) => {
                self.child_contracts.swap_remove(k);
                proof {
                    let j = choose|j: int| old(self).position(child@, j);
                    assert(j == k);
                    let t = swap_removed(before, k as int);
                    assert(self.children() =~= t);
                    let last = before.len() - 1;
                    assert forall|i: int| 0 <= i < t.len() implies #[trigger] t[i] == before[if i
                        == k {
                        last
                    } else {
                        i
                    }] by {}
                    assert forall|q: int| !self.position(child@, q) by {
                        if self.position(child@, q) {
                            let sq = if q == k { last } else { q };
                            assert(before[sq].0 == child@);
                            assert(before[k as int].0 == child@);
                        }
                    }
                    assert forall|a: Seq<char>| a != child@ implies (#[trigger] self.registered(a)
                        <==> old(self).registered(a)) by {
                        if exists|q: int| old(self).position(a, q) {
                            let q = choose|q: int| old(self).position(a, q);
                            assert(q != k);
                            let tq = if q == last { k as int } else { q };
                            assert(self.position(a, tq));
                        }
                        if exists|q: int| self.position(a, q) {
                            let q = choose|q: int| self.position(a, q);
                            let sq = if q == k { last } else { q };
                            assert(old(self).position(a, sq));
                        }
                    }
                }
            },
            None => {},
        }
        Ok(())
    }

    /// Records a child whose deployment has just been reported: registered
    /// as `register_child_contract` would when `succeeded`, refused otherwise.
    pub fn on_child_deploy(
        &mut self,
        caller: &String,
        succeeded: bool,
        child: String,
        contract_type: ChildContractType,
        now: u64,
    ) -> (r: Result<(), RegistryError>)
        requires
            old(self).wf(),
        ensures
            final(self).wf(),
            !succeeded ==> r == Err::<(), RegistryError>(RegistryError::DeployFailed) && *final(self)
                == *old(self),
            succeeded && caller@ != old(self).owner@ ==> r == Err::<(), RegistryError>(
                RegistryError::NotOwner,
            ) && *final(self) == *old(self),
            succeeded && caller@ == old(self).owner@ ==> r is Ok && exists|k: int|
                #[trigger] final(self).position(child@, k) && final(self).children()[k].1
                    == (ChildContractMetadata { contract_type, deployed_at: now }),
    {
        if !succeeded {
            return Err(RegistryError::DeployFailed);
        }
        let ghost name = child@;
        let r = self.register_child_contract(caller, child, contract_type, now);
        proof {
            if r is Ok {
                if exists|k: int| old(self).position(name, k) {
                    let k = choose|k: int| old(self).position(name, k);
                    assert(self.position(name, k));
                } else {
                    assert(self.position(name, old(self).children().len() as int));
                }
            }
        }
        r
    }

    /// Every registered child with its record, in registry order.
    pub fn list_child_contracts(&self) -> (r: Vec<(String, ChildContractMetadata)>)
        ensures
            pair_views(r@) == self.children(),
    {
        let mut out: Vec<(String, ChildContractMetadata)> = Vec::new();
        let mut i: usize = 0;
        while i < self.child_contracts.len()
            invariant
                i <= self.child_contracts@.len(),
                pair_views(out@) == self.children().subrange(0, i as int),
            decreases self.child_contracts@.len() - i,
        {
            let e = &self.child_contracts[i];
            let account = e.account.clone();
            assert(account@ == self.children()[i as int].0);
            let ghost prev = out@;
            let ghost item = (account@, e.metadata);
            out.push((account, e.metadata));
            assert(pair_views(out@) =~= pair_views(prev).push(item));
            assert(self.children().subrange(0, i + 1) =~= self.children().subrange(0, i as int).push(
                item,
            ));
            i = i + 1;
            assert(pair_views(out@) =~= self.children().subrange(0, i as int));
        }
        assert(self.children().subrange(0, i as int) =~= self.children());
        out
    }
}

} // verus!
