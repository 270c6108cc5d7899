//! Third-party spending rights: how much each spender may still move on an
//! owner's behalf.
use vstd::prelude::*;
use crate::account::{AccountId, Balance, Error};
use crate::ledger::Ledger;

verus! {

/// The key of an entry: its owner and its spender, as byte sequences.
pub open spec fn grant_key(e: (AccountId, AccountId, Balance)) -> (Seq<u8>, Seq<u8>) {
    (e.0@, e.1@)
}

/// The amount of the last entry keyed by `k`, or zero where there is none.
pub open spec fn granted(s: Seq<(AccountId, AccountId, Balance)>, k: (Seq<u8>, Seq<u8>)) -> nat
    decreases s.len(),
{
    if s.len() == 0 {
        0
    } else if grant_key(s.last()) == k {
        s.last().2 as nat
    } else {
        granted(s.drop_last(), k)
    }
}

/// No two entries share an (owner, spender) pair.
pub open spec fn grant_keys_unique(s: Seq<(AccountId, AccountId, Balance)>) -> bool {
    forall|i: int, j: int| 0 <= i < j < s.len() ==> grant_key(s[i]) != grant_key(s[j])
}

proof fn lemma_granted_absent(s: Seq<(AccountId, AccountId, Balance)>, k: (Seq<u8>, Seq<u8>))
    requires
        forall|i: int| 0 <= i < s.len() ==> grant_key(s[i]) != k,
    ensures
        granted(s, k) == 0,
    decreases s.len(),
{
    if s.len() > 0 {
        lemma_granted_absent(s.drop_last(), k);
    }
}

proof fn lemma_granted_at(s: Seq<(AccountId, AccountId, Balance)>, i: int, k: (Seq<u8>, Seq<u8>))
    requires
        grant_keys_unique(s),
        0 <= i < s.len(),
        grant_key(s[i]) == k,
    ensures
        granted(s, k) == s[i].2,
    decreases s.len(),
{
    if i < s.len() - 1 {
        lemma_granted_at(s.drop_last(), i, k);
    }
}

/// Approved amounts per (owner, spender) pair; a pair without an entry has
/// an allowance of zero.
pub struct AllowanceRegistry {
    entries: Vec<(AccountId, AccountId, Balance)>,
}

impl AllowanceRegistry {
    /// Each (owner, spender) pair has at most one entry.
    pub closed spec fn wf(&self) -> bool {
        grant_keys_unique(self.entries@)
    }

    /// What `spender` may still move on behalf of `owner`.
    pub closed spec fn allowance(&self, owner: Seq<u8>, spender: Seq<u8>) -> nat {
        granted(self.entries@, (owner, spender))
    }

    /// A registry in which every allowance is zero.
    pub fn empty() -> (r: AllowanceRegistry)
        ensures
            r.wf(),
            forall|o: Seq<u8>, s: Seq<u8>| #[trigger] r.allowance(o, s) == 0,
    {
        AllowanceRegistry { entries: Vec::new() }
    }

    /// Index of the entry for (`owner`, `spender`), if there is one.
    fn find(&self, owner: &AccountId, spender: &AccountId) -> (r: Option<usize>)
        ensures
            match r {
                Some(i) => i < self.entries@.len() && grant_key(self.entries@[i as int]) == (owner@, spender@),
                None => forall|i: int| 0 <= i < self.entries@.len() ==> grant_key(self.entries@[i]) != (owner@, spender@),
            },
    {
        let mut i: usize = 0;
        while i < self.entries.len()
            invariant
                i <= self.entries@.len(),
                forall|j: int| 0 <= j < i ==> grant_key(self.entries@[j]) != (owner@, spender@),
            decreases self.entries@.len() - i,
        {
            if self.entries[i].0.same(owner) && self.entries[i].1.same(spender) {
                return Some(i);
            }
            i = i + 1;
        }
        None
    }

    /// Returns the stored allowance of (`owner`, `spender`), or zero where none
    /// is stored.
    pub fn get_allowance(&self, owner: &AccountId, spender: &AccountId) -> (r: Balance)
        requires
            self.wf(),
        ensures
            r == self.allowance(owner@, spender@),
    {
        match self.find(owner, spender) {
            Some(i) => {
                proof {
                    lemma_granted_at(self.entries@, i as int, (owner@, spender@));
                }
                self.entries[i].2
            },
            None => {
                proof {
                    lemma_granted_absent(self.entries@, (owner@, spender@));
                }
                0
            },
        }
    }

    /// Sets the allowance of (`owner`, `spender`) to `v`, leaving every other
    /// pair as it was.
    fn set(&mut self, owner: &AccountId, spender: &AccountId, v: Balance)
        requires
            old(self).wf(),
        ensures
            final(self).wf(),
            forall|o: Seq<u8>, s: Seq<u8>| #[trigger] final(self).allowance(o, s) == if (o, s) == (owner@, spender@) {
                v as nat
            } else {
                old(self).allowance(o, s)
            },
    {
        let ghost s = self.entries@;
        let ghost key = (owner@, spender@);
        match self.find(owner, spender) {
            Some(i) => {
                self.entries.set(i, (*owner, *spender, v));
                let ghost t = self.entries@;
                assert(t == s.update(i as int, (*owner, *spender, v)));
                assert forall|o: Seq<u8>, p: Seq<u8>| #[trigger] self.allowance(o, p) == if (o, p) == key { v as nat } else { granted(s, (o, p)) } by {
                    let k = (o, p);
                    if k == key {
                        lemma_granted_at(t, i as int, k);
                    } else if exists|j: int| 0 <= j < t.len() && grant_key(t[j]) == k {
                        let j = choose|j: int| 0 <= j < t.len() && grant_key(t[j]) == k;
                        lemma_granted_at(t, j, k);
                        lemma_granted_at(s, j, k);
                    } else {
                        lemma_granted_absent(t, k);
                        assert forall|j: int| 0 <= j < s.len() implies grant_key(s[j]) != k by {
                            if j != i {
                                assert(t[j] == s[j]);
                            }
                        }
                        lemma_granted_absent(s, k);
                    }
                }
            },
            None => {
                self.entries.push((*owner, *spender, v));
                let ghost t = self.entries@;
                assert(t == s.push((*owner, *spender, v)));
                assert forall|o: Seq<u8>, p: Seq<u8>| #[trigger] self.allowance(o, p) == if (o, p) == key { v as nat } else { granted(s, (o, p)) } by {
                    let k = (o, p);
                    if k == key {
                        lemma_granted_at(t, s.len() as int, k);
                    } else if exists|j: int| 0 <= j < t.len() && grant_key(t[j]) == k {
                        let j = choose|j: int| 0 <= j < t.len() && grant_key(t[j]) == k;
                        lemma_granted_at(t, j, k);
                        lemma_granted_at(s, j, k);
                    } else {
                        lemma_granted_absent(t, k);
                        assert forall|j: int| 0 <= j < s.len() implies grant_key(s[j]) != k by {
                            assert(t[j] == s[j]);
                        }
                        lemma_granted_absent(s, k);
                    }
                }
            },
        }
    }

    /// Overwrites the allowance of (`owner`, `spender`) with `value`, whatever
    /// it was, provided `owner`'s current balance in `ledger` covers `value`;
    /// otherwise fails with `InsufficientBalance` and changes nothing.
    pub fn approve(&mut self, ledger: &Ledger, owner: &AccountId, spender: &AccountId, value: Balance) -> (r: Result<(), Error>)
        requires
            old(self).wf(),
            ledger.wf(),
        ensures
            final(self).wf(),
            (r is Err) == (value > ledger.balance(owner@)),
            r is Err ==> r == Err::<(), Error>(Error::InsufficientBalance) && *final(self) == *old(self),
            r is Ok ==> forall|o: Seq<u8>, s: Seq<u8>| #[trigger] final(self).allowance(o, s) == if (o, s) == (owner@, spender@) {
                value as nat
            } else {
                old(self).allowance(o, s)
            },
    {
        let owner_balance = ledger.balance_of(owner);
        if owner_balance < value {
            return Err(Error::InsufficientBalance);
        }
        self.set(owner, spender, value);
        Ok(())
    }

    /// Takes `value` out of the allowance of (`owner`, `spender`), or fails
    /// with `InsufficientAllowance` and changes nothing.
    pub fn consume(&mut self, owner: &AccountId, spender: &AccountId, value: Balance) -> (r: Result<(), Error>)
        requires
            old(self).wf(),
        ensures
            final(self).wf(),
            (r is Err) == (value > old(self).allowance(owner@, spender@)),
            r is Err ==> r == Err::<(), Error>(Error::InsufficientAllowance) && *final(self) == *old(self),
            r is Ok ==> forall|o: Seq<u8>, s: Seq<u8>| #[trigger] final(self).allowance(o, s) == if (o, s) == (owner@, spender@) {
                old(self).allowance(o, s) - value
            } else {
                old(self).allowance(o, s) as int
            },
    {
        let current = self.get_allowance(owner, spender);
        if current < value {
            return Err(Error::InsufficientAllowance);
        }
        self.set(owner, spender, current - value);
        Ok(())
    }
}

} // verus!
