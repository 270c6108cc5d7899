//! The account-to-balance store and the one primitive that changes two
//! balances together.
use vstd::prelude::*;
use crate::account::{AccountId, Balance, Error};

verus! {

/// What `entries` records for `a`: the amount of the last entry keyed by `a`,
/// or zero where there is none.
pub open spec fn stored(s: Seq<(AccountId, Balance)>, a: Seq<u8>) -> nat
    decreases s.len(),
{
    if s.len() == 0 {
        0
    } else if s.last().0@ == a {
        s.last().1 as nat
    } else {
        stored(s.drop_last(), a)
    }
}

/// No two entries are keyed by the same account.
pub open spec fn keys_unique(s: Seq<(AccountId, Balance)>) -> bool {
    forall|i: int, j: int| 0 <= i < j < s.len() ==> s[i].0@ != s[j].0@
}

/// The sum of all stored amounts.
pub open spec fn sum_amounts(s: Seq<(AccountId, Balance)>) -> int
    decreases s.len(),
{
    if s.len() == 0 {
        0
    } else {
        sum_amounts(s.drop_last()) + s.last().1
    }
}

proof fn lemma_stored_absent(s: Seq<(AccountId, Balance)>, a: Seq<u8>)
    requires
        forall|i: int| 0 <= i < s.len() ==> s[i].0@ != a,
    ensures
        stored(s, a) == 0,
    decreases s.len(),
{
    if s.len() > 0 {
        lemma_stored_absent(s.drop_last(), a);
    }
}

proof fn lemma_stored_at(s: Seq<(AccountId, Balance)>, i: int, a: Seq<u8>)
    requires
        keys_unique(s),
        0 <= i < s.len(),
        s[i].0@ == a,
    ensures
        stored(s, a) == s[i].1,
    decreases s.len(),
{
    if i < s.len() - 1 {
        lemma_stored_at(s.drop_last(), i, a);
    }
}

proof fn lemma_stored_le_sum(s: Seq<(AccountId, Balance)>, a: Seq<u8>)
    ensures
        0 <= sum_amounts(s),
        stored(s, a) <= sum_amounts(s),
    decreases s.len(),
{
    if s.len() > 0 {
        lemma_stored_le_sum(s.drop_last(), a);
    }
}

proof fn lemma_sum_update(s: Seq<(AccountId, Balance)>, i: int, e: (AccountId, Balance))
    requires
        0 <= i < s.len(),
    ensures
        sum_amounts(s.update(i, e)) == sum_amounts(s) - s[i].1 + e.1,
    decreases s.len(),
{
    let t = s.update(i, e);
    if i < s.len() - 1 {
        assert(t.drop_last() =~= s.drop_last().update(i, e));
        lemma_sum_update(s.drop_last(), i, e);
    } else {
        assert(t.drop_last() =~= s.drop_last());
    }
}

proof fn lemma_sum_push(s: Seq<(AccountId, Balance)>, e: (AccountId, Balance))
    ensures
        sum_amounts(s.push(e)) == sum_amounts(s) + e.1,
{
    assert(s.push(e).drop_last() =~= s);
}

/// The sum of `f` over `accts`.
pub open spec fn sum_over(f: spec_fn(Seq<u8>) -> nat, accts: Seq<Seq<u8>>) -> int
    decreases accts.len(),
{
    if accts.len() == 0 {
        0
    } else {
        sum_over(f, accts.drop_last()) + f(accts.last())
    }
}

/// The accounts that key the entries of `s`, in order.
pub open spec fn entry_keys(s: Seq<(AccountId, Balance)>) -> Seq<Seq<u8>> {
    s.map_values(|e: (AccountId, Balance)| e.0@)
}

proof fn lemma_sum_over_keys(s: Seq<(AccountId, Balance)>, n: int)
    requires
        keys_unique(s),
        0 <= n <= s.len(),
    ensures
        sum_over(|a: Seq<u8>| stored(s, a), entry_keys(s).take(n)) == sum_amounts(s.take(n)),
    decreases n,
{
    let f = |a: Seq<u8>| stored(s, a);
    if n > 0 {
        lemma_sum_over_keys(s, n - 1);
        assert(entry_keys(s).take(n).drop_last() =~= entry_keys(s).take(n - 1));
        assert(s.take(n).drop_last() =~= s.take(n - 1));
        lemma_stored_at(s, n - 1, s[n - 1].0@);
    } else {
        assert(s.take(0) =~= Seq::<(AccountId, Balance)>::empty());
        assert(entry_keys(s).take(0) =~= Seq::<Seq<u8>>::empty());
    }
}

/// Balances of all accounts; an account without an entry holds zero.
pub struct Ledger {
    entries: Vec<(AccountId, Balance)>,
}

impl Ledger {
    /// Each account has at most one entry.
    pub closed spec fn wf(&self) -> bool {
        keys_unique(self.entries@)
    }

    /// The balance of account `a`.
    pub closed spec fn balance(&self, a: Seq<u8>) -> nat {
        stored(self.entries@, a)
    }

    /// The sum of the balances of all accounts.
    pub closed spec fn total(&self) -> int {
        sum_amounts(self.entries@)
    }

    /// A ledger in which `owner` holds `amount` and every other account zero.
    pub fn with_holder(owner: AccountId, amount: Balance) -> (r: Ledger)
        ensures
            r.wf(),
            r.total() == amount,
            forall|k: Seq<u8>| #[trigger] r.balance(k) == if k == owner@ { amount as nat } else { 0 },
    {
        let mut entries: Vec<(AccountId, Balance)> = Vec::new();
        entries.push((owner, amount));
        let r = Ledger { entries };
        proof {
            assert(r.entries@.drop_last() =~= Seq::<(AccountId, Balance)>::empty());
            assert(sum_amounts(r.entries@) == sum_amounts(r.entries@.drop_last()) + amount);
            assert forall|k: Seq<u8>| #[trigger] r.balance(k) == if k == owner@ { amount as nat } else { 0 } by {
                if k != owner@ {
                    lemma_stored_absent(r.entries@.drop_last(), k);
                }
            }
        }
        r
    }

    /// The accounts that hold an entry: every account with a nonzero balance
    /// is among them.
    pub closed spec fn holders(&self) -> Seq<Seq<u8>> {
        entry_keys(self.entries@)
    }

    /// `total` is the sum of the balances of `holders`, a list without
    /// repetition that names every account with a nonzero balance.
    pub proof fn lemma_total_is_sum_of_balances(&self)
        requires
            self.wf(),
        ensures
            self.holders().no_duplicates(),
            forall|a: Seq<u8>| #[trigger] self.balance(a) > 0 ==> self.holders().contains(a),
            sum_over(|a: Seq<u8>| self.balance(a), self.holders()) == self.total(),
    {
        let s = self.entries@;
        assert forall|a: Seq<u8>| #[trigger] self.balance(a) > 0 implies self.holders().contains(a) by {
            if !(exists|i: int| 0 <= i < s.len() && s[i].0@ == a) {
                lemma_stored_absent(s, a);
            } else {
                let i = choose|i: int| 0 <= i < s.len() && s[i].0@ == a;
                assert(self.holders()[i] == a);
            }
        }
        lemma_sum_over_keys(s, s.len() as int);
        assert(entry_keys(s).take(s.len() as int) =~= entry_keys(s));
        assert(s.take(s.len() as int) =~= s);
        assert((|a: Seq<u8>| self.balance(a)) =~= (|a: Seq<u8>| stored(s, a)));
    }

    /// The balance of any account is at most the sum of all balances.
    proof fn lemma_balance_le_total(&self, a: Seq<u8>)
        ensures
            0 <= self.total(),
            self.balance(a) <= self.total(),
    {
        lemma_stored_le_sum(self.entries@, a);
    }

    /// Index of the entry keyed by `a`, if there is one.
    fn find(&self, a: &AccountId) -> (r: Option<usize>)
        ensures
            match r {
                Some(i) => i < self.entries@.len() && self.entries@[i as int].0@ == a@,
                None => forall|i: int| 0 <= i < self.entries@.len() ==> self.entries@[i].0@ != a@,
            },
    {
        let mut i: usize = 0;
        while i < self.entries.len()
            invariant
                i <= self.entries@.len(),
                forall|j: int| 0 <= j < i ==> self.entries@[j].0@ != a@,
            decreases self.entries@.len() - i,
        {
            if self.entries[i].0.same(a) {
                return Some(i);
            }
            i = i + 1;
        }
        None
    }

    /// Returns the stored balance of `a`, or zero where none is stored.
    pub fn balance_of(&self, a: &AccountId) -> (r: Balance)
        requires
            self.wf(),
        ensures
            r == self.balance(a@),
    {
        match self.find(a) {
            Some(i) => {
                proof {
                    lemma_stored_at(self.entries@, i as int, a@);
                }
                self.entries[i].1
            },
            None => {
                proof {
                    lemma_stored_absent(self.entries@, a@);
                }
                0
            },
        }
    }

    /// Sets the balance of `a` to `v`, leaving every other balance as it was.
    fn set(&mut self, a: &AccountId, v: Balance)
        requires
            old(self).wf(),
        ensures
            final(self).wf(),
            final(self).total() == old(self).total() - old(self).balance(a@) + v,
            forall|k: Seq<u8>| #[trigger] final(self).balance(k) == if k == a@ { v as nat } else { old(self).balance(k) },
    {
        let ghost s = self.entries@;
        match self.find(a) {
            Some(i) => {
                proof {
                    lemma_stored_at(s, i as int, a@);
                    lemma_sum_update(s, i as int, (*a, v));
                }
                self.entries.set(i, (*a, v));
                let ghost t = self.entries@;
                assert(t == s.update(i as int, (*a, v)));
                assert forall|k: Seq<u8>| #[trigger] self.balance(k) == if k == a@ { v as nat } else { stored(s, k) } by {
                    if k == a@ {
                        lemma_stored_at(t, i as int, k);
                    } else if exists|j: int| 0 <= j < t.len() && t[j].0@ == k {
                        let j = choose|j: int| 0 <= j < t.len() && t[j].0@ == k;
                        lemma_stored_at(t, j, k);
                        lemma_stored_at(s, j, k);
                    } else {
                        lemma_stored_absent(t, k);
                        assert forall|j: int| 0 <= j < s.len() implies s[j].0@ != k by {
                            if j != i {
                                assert(t[j] == s[j]);
                            }
                        }
                        lemma_stored_absent(s, k);
                    }
                }
            },
            None => {
                proof {
                    lemma_stored_absent(s, a@);
                    lemma_sum_push(s, (*a, v));
                }
                self.entries.push((*a, v));
                let ghost t = self.entries@;
                assert(t == s.push((*a, v)));
                assert forall|k: Seq<u8>| #[trigger] self.balance(k) == if k == a@ { v as nat } else { stored(s, k) } by {
                    if k == a@ {
                        lemma_stored_at(t, s.len() as int, k);
                    } else if exists|j: int| 0 <= j < t.len() && t[j].0@ == k {
                        let j = choose|j: int| 0 <= j < t.len() && t[j].0@ == k;
                        lemma_stored_at(t, j, k);
                        lemma_stored_at(s, j, k);
                    } else {
                        lemma_stored_absent(t, k);
                        assert forall|j: int| 0 <= j < s.len() implies s[j].0@ != k by {
                            assert(t[j] == s[j]);
                        }
                        lemma_stored_absent(s, k);
                    }
                }
            },
        }
    }

    /// Moves `value` from `from` to `to` in one step, or fails with
    /// `InsufficientBalance` and changes nothing. A transfer to oneself
    /// succeeds and leaves every balance as it was. The credit cannot
    /// overflow: it is bounded by the sum of all balances, which fits.
    pub fn transfer(&mut self, from: &AccountId, to: &AccountId, value: Balance) -> (r: Result<(), Error>)
        requires
            old(self).wf(),
            old(self).total() <= u128::MAX,
        ensures
            final(self).wf(),
            final(self).total() == old(self).total(),
            (r is Err) == (value > old(self).balance(from@)),
            r is Err ==> r == Err::<(), Error>(Error::InsufficientBalance) && *final(self) == *old(self),
            r is Ok ==> forall|k: Seq<u8>| #[trigger] final(self).balance(k) == if from@ == to@ {
                old(self).balance(k) as int
            } else if k == from@ {
                old(self).balance(k) - value
            } else if k == to@ {
                old(self).balance(k) + value
            } else {
                old(self).balance(k) as int
            },
    {
        let from_balance = self.balance_of(from);
        if from_balance < value {
            return Err(Error::InsufficientBalance);
        }
        self.set(from, from_balance - value);
        let to_balance = self.balance_of(to);
        proof {
            self.lemma_balance_le_total(to@);
        }
        self.set(to, to_balance + value);
        Ok(())
    }
}

} // verus!
