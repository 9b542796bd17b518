//! Per-client account balances: available funds, held funds and a lock flag.

use vstd::prelude::*;
use crate::amount::Amount;

verus! {

/// A client's account in the payment engine.
///
/// Invariant ([`AccountModel::wf`]): `available` and `held` never go negative and
/// their sum always fits the fixed-point representation. Once `locked` is
/// set by a chargeback, no mutating operation may be called again: every
/// mutator requires an unlocked account.
#[derive(Debug, Clone, Copy)]
pub struct Account {
    /// The available funds in the account.
    available: Amount,
    /// The held funds in the account, typically due to disputes.
    held: Amount,
    /// Indicates whether the account is locked due to a chargeback.
    locked: bool,
}

/// The mathematical state of an account: both balances in raw units, plus
/// the lock flag.
#[verifier::ext_equal]
pub ghost struct AccountModel {
    /// Available funds, in raw units.
    pub available: int,
    /// Held funds, in raw units.
    pub held: int,
    /// Whether the account is locked.
    pub locked: bool,
}

impl View for Account {
    type V = AccountModel;

    closed spec fn view(&self) -> AccountModel {
        AccountModel { available: self.available@, held: self.held@, locked: self.locked }
    }
}

impl AccountModel {
    /// Balances are non-negative and their sum is representable.
    pub open spec fn wf(self) -> bool {
        &&& 0 <= self.available
        &&& 0 <= self.held
        &&& self.available + self.held <= i128::MAX
    }

    /// The state of a freshly created account: zero balances, unlocked.
    pub open spec fn init() -> AccountModel {
        AccountModel { available: 0, held: 0, locked: false }
    }
}

impl Default for Account {
    /// A fresh account: zero balances, unlocked.
    fn default() -> (r: Self)
        ensures
            r@ == AccountModel::init(),
    {
        Account { available: Amount::zero(), held: Amount::zero(), locked: false }
    }
}

impl Account {
    /// Total funds: available plus held.
    pub fn total_funds(&self) -> (r: Amount)
        requires
            self@.wf(),
        ensures
            r@ == self@.available + self@.held,
    {
        self.available.add(self.held)
    }

    /// The available funds.
    pub fn available_funds(&self) -> (r: Amount)
        ensures
            r@ == self@.available,
    {
        self.available
    }

    /// The held funds.
    pub fn held_funds(&self) -> (r: Amount)
        ensures
            r@ == self@.held,
    {
        self.held
    }

    /// Whether the account is locked.
    pub fn is_locked(&self) -> (r: bool)
        ensures
            r == self@.locked,
    {
        self.locked
    }

    /// Add `amount` to the available funds. Always succeeds.
    pub fn deposit(&mut self, amount: Amount)
        requires
            old(self)@.wf(),
            !old(self)@.locked,
            0 <= amount@,
            old(self)@.available + old(self)@.held + amount@ <= i128::MAX,
        ensures
            final(self)@ == (AccountModel { available: old(self)@.available + amount@, ..old(self)@ }),
            final(self)@.wf(),
    {
        self.available = self.available.add(amount);
    }

    /// Withdraw `amount` from the available funds.
    ///
    /// Succeeds exactly when the available funds cover `amount`; otherwise the
    /// account is left unchanged and insufficient funds are reported.
    pub fn withdraw(&mut self, amount: Amount) -> (r: Result<(), ()>)
        requires
            old(self)@.wf(),
            !old(self)@.locked,
            0 <= amount@,
        ensures
            r is Ok <==> old(self)@.available >= amount@,
            r is Ok ==> final(self)@ == (AccountModel {
                available: old(self)@.available - amount@,
                ..old(self)@
            }),
            r is Err ==> *final(self) == *old(self),
            final(self)@.wf(),
    {
        if self.available.ge(&amount) {
            self.available = self.available.sub(amount);
            Ok(())
        } else {
            Err(())
        }
    }

    /// Move `amount` from the available funds to the held funds.
    ///
    /// Succeeds exactly when the available funds cover `amount`; otherwise the
    /// account is left unchanged and insufficient funds are reported.
    pub fn hold_funds(&mut self, amount: Amount) -> (r: Result<(), ()>)
        requires
            old(self)@.wf(),
            !old(self)@.locked,
            0 <= amount@,
        ensures
            r is Ok <==> old(self)@.available >= amount@,
            r is Ok ==> final(self)@ == (AccountModel {
                available: old(self)@.available - amount@,
                held: old(self)@.held + amount@,
                ..old(self)@
            }),
            r is Err ==> *final(self) == *old(self),
            final(self)@.wf(),
    {
        if self.available.ge(&amount) {
            self.available = self.available.sub(amount);
            self.held = self.held.add(amount);
            Ok(())
        } else {
            Err(())
        }
    }

    /// Move `amount` from the held funds back to the available funds.
    ///
    /// The caller guarantees that at least `amount` is held.
    pub fn release_funds(&mut self, amount: Amount)
        requires
            old(self)@.wf(),
            !old(self)@.locked,
            0 <= amount@ <= old(self)@.held,
        ensures
            final(self)@ == (AccountModel {
                available: old(self)@.available + amount@,
                held: old(self)@.held - amount@,
                ..old(self)@
            }),
            final(self)@.wf(),
    {
        self.held = self.held.sub(amount);
        self.available = self.available.add(amount);
    }

    /// Remove `amount` from the held funds and lock the account, permanently.
    ///
    /// The caller guarantees that at least `amount` is held.
    pub fn chargeback(&mut self, amount: Amount)
        requires
            old(self)@.wf(),
            !old(self)@.locked,
            0 <= amount@ <= old(self)@.held,
        ensures
            final(self)@ == (AccountModel {
                held: old(self)@.held - amount@,
                locked: true,
                ..old(self)@
            }),
            final(self)@.wf(),
    {
        self.held = self.held.sub(amount);
        self.locked = true;
    }
}

} // verus!
