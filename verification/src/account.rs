use vstd::prelude::*;

use crate::amount::Amount;

verus! {

/// Mathematical state of one account: exact balances, and the lock flag that
/// a chargeback sets.
pub struct AccountV {
    pub total: int,
    pub held: int,
    pub locked: bool,
}

/// The spendable balance: total minus held. It is derived, never stored.
pub open spec fn avail(a: AccountV) -> int {
    a.total - a.held
}

/// Every balance of the account, the derived available one included, fits the
/// 64-bit fixed-point representation. A transaction whose result would leave
/// the account outside this range is ignored by the engine.
pub open spec fn account_in_range(a: AccountV) -> bool {
    &&& i64::MIN <= a.total <= i64::MAX
    &&& i64::MIN <= a.held <= i64::MAX
    &&& i64::MIN <= a.total - a.held <= i64::MAX
}

/// The state of an account that no transaction has ever touched.
pub open spec fn initial_account() -> AccountV {
    AccountV { total: 0, held: 0, locked: false }
}

/// Whether an account is still in its initial all-zero, unlocked state.
pub open spec fn is_untouched(a: AccountV) -> bool {
    a.total == 0 && a.held == 0 && !a.locked
}

/// Result of a deposit: the deposited amount settles into total.
pub open spec fn deposit_next(a: AccountV, amt: int) -> AccountV {
    AccountV { total: a.total + amt, ..a }
}

/// Result of an accepted withdrawal: the amount leaves total.
pub open spec fn withdraw_next(a: AccountV, amt: int) -> AccountV {
    AccountV { total: a.total - amt, ..a }
}

/// Result of a dispute: the disputed amount is frozen into held.
pub open spec fn dispute_next(a: AccountV, amt: int) -> AccountV {
    AccountV { held: a.held + amt, ..a }
}

/// Result of a resolve: the disputed amount thaws out of held.
pub open spec fn resolve_next(a: AccountV, amt: int) -> AccountV {
    AccountV { held: a.held - amt, ..a }
}

/// Result of a chargeback: the disputed amount leaves both held and total,
/// and the account is locked for good.
pub open spec fn chargeback_next(a: AccountV, amt: int) -> AccountV {
    AccountV { total: a.total - amt, held: a.held - amt, locked: true }
}

/// Working per-client account state. The client id locates the account and is
/// not duplicated inside it.
#[derive(Clone, Copy, PartialEq, Eq, Structural, Debug)]
pub struct Account {
    pub locked: bool,
    pub total: Amount,
    pub held: Amount,
}

impl View for Account {
    type V = AccountV;

    open spec fn view(&self) -> AccountV {
        AccountV { total: self.total@, held: self.held@, locked: self.locked }
    }
}

impl Default for Account {
    fn default() -> (r: Account)
        ensures
            r@ == initial_account(),
    {
        Account { locked: false, total: Amount { raw: 0 }, held: Amount { raw: 0 } }
    }
}

impl Account {
    /// A fresh, untouched account.
    pub fn new() -> (r: Account)
        ensures
            r@ == initial_account(),
    {
        Account { locked: false, total: Amount { raw: 0 }, held: Amount { raw: 0 } }
    }

    /// The spendable balance, total minus held, computed on demand.
    pub fn available(&self) -> (r: Amount)
        requires
            account_in_range(self@),
        ensures
            r@ == avail(self@),
    {
        Amount { raw: self.total.raw - self.held.raw }
    }

    /// Whether the account is still in its initial state; such accounts are
    /// omitted from the output.
    pub fn unused(&self) -> (r: bool)
        ensures
            r == is_untouched(self@),
    {
        !self.locked && self.total.raw == 0 && self.held.raw == 0
    }
}

} // verus!
