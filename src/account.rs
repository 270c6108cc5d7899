//! Account identifiers, amounts, errors and the event records that the token
//! operations emit.
use vstd::prelude::*;

verus! {

/// A token quantity.
pub type Balance = u128;

/// Opaque 32-byte identifier of a ledger participant.
#[derive(Clone, Copy, Debug, PartialEq, Eq, Hash)]
pub struct AccountId(pub [u8; 32]);

impl AccountId {
    /// The identifier as a sequence of bytes; two identifiers denote the same
    /// account exactly when their views are equal.
    pub open spec fn view(&self) -> Seq<u8> {
        self.0@
    }

    /// Compares two identifiers byte by byte.
    pub fn same(&self, other: &AccountId) -> (r: bool)
        ensures
            r == (self@ == other@),
    {
        let mut i: usize = 0;
        while i < 32
            invariant
                0 <= i <= 32,
                self@.len() == 32,
                other@.len() == 32,
                forall|j: int| 0 <= j < i ==> self@[j] == other@[j],
            decreases 32 - i,
        {
            if self.0[i] != other.0[i] {
                return false;
            }
            i = i + 1;
        }
        assert(self@ =~= other@);
        true
    }
}

/// Failures of the token operations.
#[derive(Clone, Copy, Debug, PartialEq, Eq, Structural)]
pub enum Error {
    /// The balance cannot cover the request.
    InsufficientBalance,
    /// The approved amount cannot cover the request.
    InsufficientAllowance,
}

/// A movement of tokens; `from == None` marks the mint at construction.
#[derive(Clone, Copy, Debug, PartialEq, Eq)]
pub struct Transfer {
    pub from: Option<AccountId>,
    pub to: Option<AccountId>,
    pub value: Balance,
}

/// A grant of spending rights from `owner` to `spender`.
#[derive(Clone, Copy, Debug, PartialEq, Eq)]
pub struct Approval {
    pub owner: Option<AccountId>,
    pub spender: Option<AccountId>,
    pub allowance: Balance,
}

/// An emitted event record, in the order of emission.
#[derive(Clone, Copy, Debug, PartialEq, Eq)]
pub enum Event {
    Transfer(Transfer),
    Approval(Approval),
}

} // verus!
