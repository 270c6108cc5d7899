//! The token façade: one owned instance holding the balances, the allowances
//! and the fixed total supply. The calling account is an explicit argument of
//! every operation, and each state change appends its event record to a log
//! that the caller hands in.
use vstd::prelude::*;
use crate::account::{AccountId, Approval, Balance, Error, Event, Transfer};
use crate::allowance::AllowanceRegistry;
use crate::ledger::{sum_over, Ledger};

verus! {

/// The balance of `k` after `value` moved from `from` to `to`, where it was
/// `before`; a move to oneself changes nothing.
pub open spec fn after_move(before: nat, k: Seq<u8>, from: Seq<u8>, to: Seq<u8>, value: nat) -> int {
    if from == to {
        before as int
    } else if k == from {
        before - value
    } else if k == to {
        before + value as int
    } else {
        before as int
    }
}

/// The record of a movement of tokens.
pub open spec fn transfer_event(from: Option<AccountId>, to: Option<AccountId>, value: Balance) -> Event {
    Event::Transfer(Transfer { from, to, value })
}

/// The record of a grant of spending rights.
pub open spec fn approval_event(owner: AccountId, spender: AccountId, allowance: Balance) -> Event {
    Event::Approval(Approval { owner: Some(owner), spender: Some(spender), allowance })
}

/// Every balance of `after` is that of `before`.
pub open spec fn same_balances(before: Erc20, after: Erc20) -> bool {
    forall|k: Seq<u8>| #[trigger] after.balance(k) == before.balance(k)
}

/// Every allowance of `after` is that of `before`.
pub open spec fn same_allowances(before: Erc20, after: Erc20) -> bool {
    forall|o: Seq<u8>, s: Seq<u8>| #[trigger] after.allowance(o, s) == before.allowance(o, s)
}

/// `after` holds the balances of `before` with `value` moved from `from` to
/// `to`.
pub open spec fn balances_moved(before: Erc20, after: Erc20, from: Seq<u8>, to: Seq<u8>, value: nat) -> bool {
    forall|k: Seq<u8>| #[trigger] after.balance(k) == after_move(before.balance(k), k, from, to, value)
}

/// `after` holds the allowances of `before`, but that of (`owner`,
/// `spender`), which is `v`.
pub open spec fn allowance_set(before: Erc20, after: Erc20, owner: Seq<u8>, spender: Seq<u8>, v: int) -> bool {
    forall|o: Seq<u8>, s: Seq<u8>| #[trigger] after.allowance(o, s) == if o == owner && s == spender {
        v
    } else {
        before.allowance(o, s) as int
    }
}

/// The outcome of `transfer(caller, to, value)` from `before`.
pub open spec fn transfer_post(before: Erc20, after: Erc20, caller: Seq<u8>, to: Seq<u8>, value: Balance, r: Result<(), Error>) -> bool {
    &&& after.supply() == before.supply()
    &&& same_allowances(before, after)
    &&& (r is Err) == (value > before.balance(caller))
    &&& r is Err ==> r == Err::<(), Error>(Error::InsufficientBalance) && after == before
    &&& r is Ok ==> balances_moved(before, after, caller, to, value as nat)
}

/// The outcome of `approve(caller, spender, value)` from `before`.
pub open spec fn approve_post(before: Erc20, after: Erc20, caller: Seq<u8>, spender: Seq<u8>, value: Balance, r: Result<(), Error>) -> bool {
    &&& after.supply() == before.supply()
    &&& same_balances(before, after)
    &&& (r is Err) == (value > before.balance(caller))
    &&& r is Err ==> r == Err::<(), Error>(Error::InsufficientBalance) && after == before
    &&& r is Ok ==> allowance_set(before, after, caller, spender, value as int)
}

/// The outcome of `transfer_from(caller, owner, to, value)` from `before`:
/// the allowance is checked and taken first, and stays taken when the
/// balance then falls short.
pub open spec fn transfer_from_post(
    before: Erc20,
    after: Erc20,
    caller: Seq<u8>,
    owner: Seq<u8>,
    to: Seq<u8>,
    value: Balance,
    r: Result<(), Error>,
) -> bool {
    &&& after.supply() == before.supply()
    &&& (r == Err::<(), Error>(Error::InsufficientAllowance)) == (value > before.allowance(owner, caller))
    &&& (r == Err::<(), Error>(Error::InsufficientBalance)) == (value <= before.allowance(owner, caller) && value > before.balance(owner))
    &&& (r is Ok) == (value <= before.allowance(owner, caller) && value <= before.balance(owner))
    &&& r == Err::<(), Error>(Error::InsufficientAllowance) ==> after == before
    &&& r != Err::<(), Error>(Error::InsufficientAllowance) ==> allowance_set(before, after, owner, caller, before.allowance(owner, caller) - value)
    &&& r == Err::<(), Error>(Error::InsufficientBalance) ==> same_balances(before, after)
    &&& r is Ok ==> balances_moved(before, after, owner, to, value as nat)
}

/// A fungible token: balances whose sum is the fixed total supply, and
/// allowances that let a spender move part of an owner's balance.
pub struct Erc20 {
    total_supply: Balance,
    balances: Ledger,
    allowances: AllowanceRegistry,
}

impl Erc20 {
    /// The stores are well formed and the balances sum to the total supply.
    pub closed spec fn wf(&self) -> bool {
        &&& self.balances.wf()
        &&& self.allowances.wf()
        &&& self.balances.total() == self.total_supply
    }

    /// The total supply fixed at construction.
    pub closed spec fn supply(&self) -> nat {
        self.total_supply as nat
    }

    /// The balance of account `a`.
    pub closed spec fn balance(&self, a: Seq<u8>) -> nat {
        self.balances.balance(a)
    }

    /// What `spender` may still move on behalf of `owner`.
    pub closed spec fn allowance(&self, owner: Seq<u8>, spender: Seq<u8>) -> nat {
        self.allowances.allowance(owner, spender)
    }

    /// A list without repetition of accounts that includes every account
    /// with a nonzero balance.
    pub closed spec fn holders(&self) -> Seq<Seq<u8>> {
        self.balances.holders()
    }

    /// In every well-formed state, which construction establishes and every
    /// operation keeps, the balances of the accounts sum to the total supply:
    /// `holders` lists each account with a nonzero balance exactly once.
    pub proof fn lemma_supply_conserved(&self)
        requires
            self.wf(),
        ensures
            self.holders().no_duplicates(),
            forall|a: Seq<u8>| #[trigger] self.balance(a) > 0 ==> self.holders().contains(a),
            sum_over(|a: Seq<u8>| self.balance(a), self.holders()) == self.supply(),
    {
        self.balances.lemma_total_is_sum_of_balances();
        assert((|a: Seq<u8>| self.balance(a)) =~= (|a: Seq<u8>| self.balances.balance(a)));
    }

    /// Mints `total_supply` to `caller`, the deploying account, and records
    /// the mint as a transfer from no one.
    pub fn new(total_supply: Balance, caller: AccountId, events: &mut Vec<Event>) -> (r: Erc20)
        ensures
            r.wf(),
            r.supply() == total_supply,
            forall|k: Seq<u8>| #[trigger] r.balance(k) == if k == caller@ { total_supply as nat } else { 0 },
            forall|o: Seq<u8>, s: Seq<u8>| #[trigger] r.allowance(o, s) == 0,
            final(events)@ == old(events)@.push(transfer_event(None, Some(caller), total_supply)),
    {
        let balances = Ledger::with_holder(caller, total_supply);
        events.push(Event::Transfer(Transfer { from: None, to: Some(caller), value: total_supply }));
        Erc20 { total_supply, balances, allowances: AllowanceRegistry::empty() }
    }

    /// Returns the total supply.
    pub fn total_supply(&self) -> (r: Balance)
        ensures
            r == self.supply(),
    {
        self.total_supply
    }

    /// Returns the balance of `owner`, zero for an account never credited.
    pub fn balance_of(&self, owner: AccountId) -> (r: Balance)
        requires
            self.wf(),
        ensures
            r == self.balance(owner@),
    {
        self.balances.balance_of(&owner)
    }

    /// Lets `spender` move up to `value` of `caller`'s tokens, replacing any
    /// earlier allowance; refused when `caller`'s balance is below `value`.
    pub fn approve(&mut self, caller: AccountId, spender: AccountId, value: Balance, events: &mut Vec<Event>) -> (r: Result<(), Error>)
        requires
            old(self).wf(),
        ensures
            final(self).wf(),
            approve_post(*old(self), *final(self), caller@, spender@, value, r),
            final(events)@ == if r is Ok {
                old(events)@.push(approval_event(caller, spender, value))
            } else {
                old(events)@
            },
    {
        let r = self.allowances.approve(&self.balances, &caller, &spender, value);
        if r.is_ok() {
            events.push(Event::Approval(Approval { owner: Some(caller), spender: Some(spender), allowance: value }));
        }
        r
    }

    /// Returns what `spender` may still move on behalf of `owner`.
    pub fn get_allowance(&self, owner: AccountId, spender: AccountId) -> (r: Balance)
        requires
            self.wf(),
        ensures
            r == self.allowance(owner@, spender@),
    {
        self.allowances.get_allowance(&owner, &spender)
    }

    /// Moves `value` of `caller`'s tokens to `to`.
    pub fn transfer(&mut self, caller: AccountId, to: AccountId, value: Balance, events: &mut Vec<Event>) -> (r: Result<(), Error>)
        requires
            old(self).wf(),
        ensures
            final(self).wf(),
            transfer_post(*old(self), *final(self), caller@, to@, value, r),
            final(events)@ == if r is Ok {
                old(events)@.push(transfer_event(Some(caller), Some(to), value))
            } else {
                old(events)@
            },
    {
        self.transform_from_to(&caller, &to, value, events)
    }

    /// Moves `value` of `owner`'s tokens to `to` on behalf of `caller`, taking
    /// it out of the allowance that `owner` gave `caller`.
    pub fn transfer_from(
        &mut self,
        caller: AccountId,
        owner: AccountId,
        to: AccountId,
        value: Balance,
        events: &mut Vec<Event>,
    ) -> (r: Result<(), Error>)
        requires
            old(self).wf(),
        ensures
            final(self).wf(),
            transfer_from_post(*old(self), *final(self), caller@, owner@, to@, value, r),
            final(events)@ == if r is Ok {
                old(events)@.push(transfer_event(Some(owner), Some(to), value))
            } else {
                old(events)@
            },
    {
        let consumed = self.allowances.consume(&owner, &caller, value);
        if consumed.is_err() {
            return Err(Error::InsufficientAllowance);
        }
        self.transform_from_to(&owner, &to, value, events)
    }

    /// The ledger move shared by `transfer` and `transfer_from`, with its
    /// event.
    fn transform_from_to(&mut self, from: &AccountId, to: &AccountId, value: Balance, events: &mut Vec<Event>) -> (r: Result<(), Error>)
        requires
            old(self).wf(),
        ensures
            final(self).wf(),
            transfer_post(*old(self), *final(self), from@, to@, value, r),
            final(events)@ == if r is Ok {
                old(events)@.push(transfer_event(Some(*from), Some(*to), value))
            } else {
                old(events)@
            },
    {
        let r = self.balances.transfer(from, to, value);
        if r.is_ok() {
            events.push(Event::Transfer(Transfer { from: Some(*from), to: Some(*to), value }));
        }
        r
    }
}

} // verus!
