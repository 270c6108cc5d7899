//! Properties that relate several token operations to one another.
use vstd::prelude::*;
use crate::account::Error;
use crate::erc20::{approve_post, same_balances, transfer_from_post, transfer_post, Erc20};

verus! {

/// After a successful `approve(caller, spender, v)`, `get_allowance(caller,
/// spender)` is exactly `v`; a second successful approval for the same pair
/// replaces it with `v2`, whatever it was.
pub proof fn lemma_approve_overwrites(
    t0: Erc20,
    t1: Erc20,
    t2: Erc20,
    caller: Seq<u8>,
    spender: Seq<u8>,
    v: u128,
    v2: u128,
)
    requires
        approve_post(t0, t1, caller, spender, v, Ok(())),
        approve_post(t1, t2, caller, spender, v2, Ok(())),
    ensures
        t1.allowance(caller, spender) == v,
        t2.allowance(caller, spender) == v2,
{
    assert(t1.allowance(caller, spender) == v);
    assert(t2.allowance(caller, spender) == v2);
}

/// A `transfer_from` beyond the allowance fails with `InsufficientAllowance`
/// and leaves every balance as it was.
pub proof fn lemma_transfer_from_short_allowance(
    t0: Erc20,
    t1: Erc20,
    caller: Seq<u8>,
    owner: Seq<u8>,
    to: Seq<u8>,
    value: u128,
    r: Result<(), Error>,
)
    requires
        transfer_from_post(t0, t1, caller, owner, to, value, r),
        t0.allowance(owner, caller) < value,
    ensures
        r == Err::<(), Error>(Error::InsufficientAllowance),
        same_balances(t0, t1),
{
}

/// With allowance and balance both sufficient, `transfer_from` succeeds,
/// lowers the allowance by `value`, and leaves the balances as a direct
/// `transfer` of `value` from `owner` to `to` would.
pub proof fn lemma_transfer_from_as_transfer(
    t0: Erc20,
    t1: Erc20,
    t2: Erc20,
    caller: Seq<u8>,
    owner: Seq<u8>,
    to: Seq<u8>,
    value: u128,
    r1: Result<(), Error>,
    r2: Result<(), Error>,
)
    requires
        transfer_from_post(t0, t1, caller, owner, to, value, r1),
        transfer_post(t0, t2, owner, to, value, r2),
        value <= t0.allowance(owner, caller),
        value <= t0.balance(owner),
    ensures
        r1 is Ok,
        r2 is Ok,
        t1.allowance(owner, caller) == t0.allowance(owner, caller) - value,
        same_balances(t2, t1),
{
    assert(t1.allowance(owner, caller) == t0.allowance(owner, caller) - value);
    assert forall|k: Seq<u8>| #[trigger] t1.balance(k) == t2.balance(k) by {
        assert(t1.balance(k) == crate::erc20::after_move(t0.balance(k), k, owner, to, value as nat));
    }
}

} // verus!
