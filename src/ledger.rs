//! The token ledger that holds the balances of every account, for every asset.
use crate::table::Table;
use vstd::prelude::*;

verus! {

/// Why a ledger operation was refused.
#[derive(Clone, Copy, Debug, PartialEq, Eq, Structural)]
pub enum LedgerError {
    /// The payer holds less than the amount, or has never held the asset.
    InsufficientBalance,
    /// The receiver's balance would leave the range of `u128`.
    BalanceOverflow,
}

/// Balances keyed by `(asset, account)`; a missing key means that the account
/// has never held the asset.
pub type Balances = Map<(u64, u64), u128>;

/// The recorded balance of `account` in `asset`, if any.
pub open spec fn lookup(m: Balances, asset: u64, account: u64) -> Option<u128> {
    if m.contains_key((asset, account)) {
        Some(m[(asset, account)])
    } else {
        None
    }
}

/// The balance of `account` in `asset`, counting a missing entry as zero.
pub open spec fn held(m: Balances, asset: u64, account: u64) -> int {
    if m.contains_key((asset, account)) {
        m[(asset, account)] as int
    } else {
        0
    }
}

/// `account` has a recorded balance of at least `amount` in `asset`.
pub open spec fn has_at_least(m: Balances, asset: u64, account: u64, amount: u128) -> bool {
    m.contains_key((asset, account)) && amount <= m[(asset, account)]
}

/// Why a transfer would be refused, if it would be.
pub open spec fn transfer_error(
    m: Balances,
    asset: u64,
    from: u64,
    to: u64,
    amount: u128,
) -> Option<LedgerError> {
    if !has_at_least(m, asset, from, amount) {
        Some(LedgerError::InsufficientBalance)
    } else if from != to && held(m, asset, to) + amount > u128::MAX {
        Some(LedgerError::BalanceOverflow)
    } else {
        None
    }
}

/// Balances after moving `amount` of `asset` from `from` to `to`.
pub open spec fn transferred(m: Balances, asset: u64, from: u64, to: u64, amount: u128) -> Balances {
    if from == to {
        m
    } else {
        m.insert((asset, from), (m[(asset, from)] - amount) as u128).insert(
            (asset, to),
            (held(m, asset, to) + amount) as u128,
        )
    }
}

/// Balances of every account in every asset.
pub struct Ledger {
    balances: Table,
}

impl View for Ledger {
    type V = Balances;

    closed spec fn view(&self) -> Balances {
        self.balances@
    }
}

impl Ledger {
    pub closed spec fn wf(&self) -> bool {
        self.balances.wf()
    }

    /// An empty ledger.
    pub fn new() -> (r: Ledger)
        ensures
            r.wf(),
            r@ == Map::<(u64, u64), u128>::empty(),
    {
        Ledger { balances: Table::new() }
    }

    /// An independent copy of the ledger.
    pub fn duplicate(&self) -> (r: Ledger)
        requires
            self.wf(),
        ensures
            r.wf(),
            r@ == self@,
    {
        Ledger { balances: self.balances.duplicate() }
    }

    /// The balance of `account` in `asset`; `None` if it never held it.
    pub fn get_balance(&self, asset: u64, account: u64) -> (r: Option<u128>)
        requires
            self.wf(),
        ensures
            r == lookup(self@, asset, account),
    {
        self.balances.get(asset, account)
    }

    /// Whether `account` holds at least `amount` of `asset`.
    pub fn has_at_least(&self, asset: u64, account: u64, amount: u128) -> (r: bool)
        requires
            self.wf(),
        ensures
            r == has_at_least(self@, asset, account, amount),
    {
        match self.balances.get(asset, account) {
            Some(b) => amount <= b,
            None => false,
        }
    }

    /// Creates `amount` of `asset` in the balance of `account`.
    pub fn mint(&mut self, asset: u64, account: u64, amount: u128) -> (r: Result<(), LedgerError>)
        requires
            old(self).wf(),
        ensures
            final(self).wf(),
            r is Ok <==> held(old(self)@, asset, account) + amount <= u128::MAX,
            r is Ok ==> final(self)@ == old(self)@.insert(
                (asset, account),
                (held(old(self)@, asset, account) + amount) as u128,
            ),
            r matches Err(e) ==> e == LedgerError::BalanceOverflow && final(self)@ == old(self)@,
    {
        let current: u128 = match self.balances.get(asset, account) {
            Some(b) => b,
            None => 0,
        };
        match current.checked_add(amount) {
            Some(v) => {
                self.balances.set(asset, account, v);
                Ok(())
            },
            None => Err(LedgerError::BalanceOverflow),
        }
    }

    /// Why a transfer would be refused, if it would be; the ledger is left as it is.
    pub fn check_transfer(&self, from: u64, to: u64, asset: u64, amount: u128) -> (r: Option<
        LedgerError,
    >)
        requires
            self.wf(),
        ensures
            r == transfer_error(self@, asset, from, to, amount),
    {
        let have = match self.balances.get(asset, from) {
            Some(b) => b,
            None => {
                return Some(LedgerError::InsufficientBalance);
            },
        };
        if amount > have {
            return Some(LedgerError::InsufficientBalance);
        }
        if from != to {
            let dest: u128 = match self.balances.get(asset, to) {
                Some(b) => b,
                None => 0,
            };
            if dest.checked_add(amount).is_none() {
                return Some(LedgerError::BalanceOverflow);
            }
        }
        None
    }

    /// Moves `amount` of `asset` from `from` to `to`.
    pub fn transfer(&mut self, from: u64, to: u64, asset: u64, amount: u128) -> (r: Result<
        (),
        LedgerError,
    >)
        requires
            old(self).wf(),
        ensures
            final(self).wf(),
            match transfer_error(old(self)@, asset, from, to, amount) {
                Some(e) => r == Err::<(), LedgerError>(e) && final(self)@ == old(self)@,
                None => r is Ok && final(self)@ == transferred(old(self)@, asset, from, to, amount),
            },
    {
        match self.check_transfer(from, to, asset, amount) {
            Some(e) => Err(e),
            None => {
                self.apply_transfer(from, to, asset, amount);
                Ok(())
            },
        }
    }

    /// Moves `amount` of `asset` from `from` to `to`, where that is allowed.
    pub(crate) fn apply_transfer(&mut self, from: u64, to: u64, asset: u64, amount: u128)
        requires
            old(self).wf(),
            transfer_error(old(self)@, asset, from, to, amount) is None,
        ensures
            final(self).wf(),
            final(self)@ == transferred(old(self)@, asset, from, to, amount),
    {
        if from != to {
            let have = match self.balances.get(asset, from) {
                Some(b) => b,
                None => 0,
            };
            let dest: u128 = match self.balances.get(asset, to) {
                Some(b) => b,
                None => 0,
            };
            self.balances.set(asset, from, have - amount);
            self.balances.set(asset, to, dest + amount);
        }
    }
}

} // verus!
