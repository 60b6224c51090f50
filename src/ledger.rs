//! The balance book that holds stakes and pots, and the escrow pot address.
use std::collections::HashMap;
use vstd::prelude::*;

use crate::{AccountId, Balance};

verus! {

broadcast use vstd::std_specs::hash::group_hash_axioms;

/// Why a movement of funds was refused.
#[derive(Clone, Copy, Debug, PartialEq, Eq, Structural)]
pub enum LedgerError {
    /// The payer does not hold the amount, or would fall below the
    /// minimum balance while it has to stay alive.
    InsufficientBalance,
    /// The payee's balance would exceed the representable range.
    Overflow,
    /// A new account would be created below the minimum balance.
    ExistentialDeposit,
}

/// Balance of `a` in the book `m`; an absent account holds nothing.
pub open spec fn balance_in(m: Map<AccountId, Balance>, a: AccountId) -> Balance {
    if m.contains_key(a) {
        m[a]
    } else {
        0
    }
}

/// Outcome of moving `amount` from an account holding `from_bal` to another
/// account holding `to_bal`, when accounts must keep `minimum` to exist.
pub open spec fn transfer_result(
    from_bal: Balance,
    to_bal: Balance,
    amount: Balance,
    minimum: Balance,
    keep_alive: bool,
) -> Result<(), LedgerError> {
    if from_bal < amount {
        Err(LedgerError::InsufficientBalance)
    } else if to_bal + amount > u128::MAX {
        Err(LedgerError::Overflow)
    } else if to_bal + amount < minimum {
        Err(LedgerError::ExistentialDeposit)
    } else if keep_alive && from_bal - amount < minimum {
        Err(LedgerError::InsufficientBalance)
    } else {
        Ok(())
    }
}

/// The book after minting `amount` into `a`: nothing happens when a new
/// account would be created below `minimum`, or when the balance would
/// overflow.
pub open spec fn deposit_book(
    book: Map<AccountId, Balance>,
    a: AccountId,
    amount: Balance,
    minimum: Balance,
) -> Map<AccountId, Balance> {
    let before = balance_in(book, a);
    if (before == 0 && amount < minimum) || before + amount > u128::MAX {
        book
    } else {
        book.insert(a, (before + amount) as Balance)
    }
}

/// Whether moving `amount` from `from` to `to` in `book` is accepted.
/// Moving nothing, or moving to the payer itself, always is.
pub open spec fn transfer_check(
    book: Map<AccountId, Balance>,
    from: AccountId,
    to: AccountId,
    amount: Balance,
    minimum: Balance,
    keep_alive: bool,
) -> Result<(), LedgerError> {
    if amount == 0 || from == to {
        Ok(())
    } else {
        transfer_result(balance_in(book, from), balance_in(book, to), amount, minimum, keep_alive)
    }
}

/// The book after an accepted move of `amount` from `from` to `to`.
pub open spec fn transfer_book(
    book: Map<AccountId, Balance>,
    from: AccountId,
    to: AccountId,
    amount: Balance,
) -> Map<AccountId, Balance> {
    if amount == 0 || from == to {
        book
    } else {
        book.insert(from, (balance_in(book, from) - amount) as Balance).insert(
            to,
            (balance_in(book, to) + amount) as Balance,
        )
    }
}

/// In-memory book of account balances with an existential minimum.
pub struct Ledger {
    balances: HashMap<AccountId, Balance>,
    minimum: Balance,
}

impl Ledger {
    /// The balances, as a map from account to amount.
    pub closed spec fn book(&self) -> Map<AccountId, Balance> {
        self.balances@
    }

    /// Balance held by `a`.
    pub open spec fn balance(&self, a: AccountId) -> Balance {
        balance_in(self.book(), a)
    }

    /// The least balance an account must keep to exist.
    pub closed spec fn minimum(&self) -> Balance {
        self.minimum
    }

    /// An empty book whose accounts must keep `minimum_balance`.
    pub fn new(minimum_balance: Balance) -> (r: Ledger)
        ensures
            r.book() == Map::<AccountId, Balance>::empty(),
            r.minimum() == minimum_balance,
    {
        Ledger { balances: HashMap::new(), minimum: minimum_balance }
    }

    /// The least balance an account must keep to exist.
    pub fn minimum_balance(&self) -> (r: Balance)
        ensures
            r == self.minimum(),
    {
        self.minimum
    }

    /// Everything held by `a`.
    pub fn total_balance(&self, a: AccountId) -> (r: Balance)
        ensures
            r == self.balance(a),
    {
        match self.balances.get(&a) {
            Some(b) => *b,
            None => 0,
        }
    }

    /// What `a` can spend; this book holds no reserves, so it is the total.
    pub fn free_balance(&self, a: AccountId) -> (r: Balance)
        ensures
            r == self.balance(a),
    {
        self.total_balance(a)
    }

    /// A copy of the book, to return to when a larger operation fails.
    pub fn snapshot(&self) -> (r: Ledger)
        ensures
            r.book() == self.book(),
            r.minimum() == self.minimum(),
    {
        Ledger { balances: self.balances.clone(), minimum: self.minimum }
    }

    /// Sets the balance of `a`, leaving every other account as it was.
    fn set_balance(&mut self, a: AccountId, amount: Balance)
        ensures
            final(self).book() == old(self).book().insert(a, amount),
            final(self).minimum() == old(self).minimum(),
    {
        self.balances.insert(a, amount);
    }

    /// Mints `amount` into `a`. Nothing happens when a new account would be
    /// created below the minimum, or when the balance would overflow.
    pub fn deposit_creating(&mut self, a: AccountId, amount: Balance)
        ensures
            final(self).minimum() == old(self).minimum(),
            final(self).book() == deposit_book(old(self).book(), a, amount, old(self).minimum()),
    {
        let before = self.total_balance(a);
        if (before == 0 && amount < self.minimum) || amount > u128::MAX - before {
            return;
        }
        self.set_balance(a, before + amount);
    }

    /// Moves `amount` from `from` to `to`. With `keep_alive` the payer must
    /// keep at least the minimum balance. Moving nothing, or moving to the
    /// payer itself, succeeds and changes nothing. On failure nothing changes.
    pub fn transfer(&mut self, from: AccountId, to: AccountId, amount: Balance, keep_alive: bool) -> (r:
        Result<(), LedgerError>)
        ensures
            final(self).minimum() == old(self).minimum(),
            r == transfer_check(old(self).book(), from, to, amount, old(self).minimum(), keep_alive),
            r is Ok ==> final(self).book() == transfer_book(old(self).book(), from, to, amount),
            r is Err ==> final(self).book() == old(self).book(),
    {
        if amount == 0 || from == to {
            return Ok(());
        }
        let from_bal = self.total_balance(from);
        let to_bal = self.total_balance(to);
        if from_bal < amount {
            return Err(LedgerError::InsufficientBalance);
        }
        if amount > u128::MAX - to_bal {
            return Err(LedgerError::Overflow);
        }
        if to_bal + amount < self.minimum {
            return Err(LedgerError::ExistentialDeposit);
        }
        if keep_alive && from_bal - amount < self.minimum {
            return Err(LedgerError::InsufficientBalance);
        }
        self.set_balance(from, from_bal - amount);
        self.set_balance(to, to_bal + amount);
        Ok(())
    }
}

/// The account of a pot whose configuration identifier is `id`: the bytes
/// `modl` followed by the identifier, cut to the width of an account and
/// read little-endian.
pub open spec fn pot_account_of(id: Seq<u8>) -> int {
    0x6d + 0x6f * 0x100 + 0x64 * 0x1_0000 + 0x6c * 0x100_0000 + id[0] * 0x1_0000_0000 + id[1]
        * 0x100_0000_0000 + id[2] * 0x1_0000_0000_0000 + id[3] * 0x100_0000_0000_0000
}

/// Derives the escrow account of the pot identified by `id`. The derivation
/// is fixed, so the pot can be located without any stored lookup.
pub fn pot_account(id: [u8; 8]) -> (r: AccountId)
    ensures
        r == pot_account_of(id@),
{
    let prefix: u64 = 0x6c64_6f6d;
    prefix + (id[0] as u64) * 0x1_0000_0000 + (id[1] as u64) * 0x100_0000_0000 + (id[2] as u64)
        * 0x1_0000_0000_0000 + (id[3] as u64) * 0x100_0000_0000_0000
}

/// What a pot can pay out: its free balance above the minimum that keeps the
/// account alive, which is never part of the prize.
pub fn pot_prize(ledger: &Ledger, pot: AccountId) -> (r: Balance)
    ensures
        r == (if ledger.balance(pot) >= ledger.minimum() {
            ledger.balance(pot) - ledger.minimum()
        } else {
            0
        }),
{
    ledger.free_balance(pot).saturating_sub(ledger.minimum_balance())
}

} // verus!
