//! Accounts and the operations that can be performed on them.
pub mod laws;
pub mod money;
pub mod transaction;
pub mod tx_history;

pub use money::Money;
pub use transaction::{Action, Id as TxId, Transaction};
pub use tx_history::TxHistory;

use money::{money_text, representable};
use tx_history::{CompletedTx, CompletedTxKind};
use vstd::prelude::*;

verus! {

/// `Client` is an account's unique identifier.
pub type Client = u16;

/// An error that occurred while processing a transaction. Each carries the
/// id of the transaction that was refused.
#[derive(Clone, Copy, Debug, PartialEq, Eq, Structural)]
pub enum Error {
    /// A deposit or withdrawal used an id that is already recorded.
    DuplicateTransaction(TxId),
    /// A deposit or withdrawal was attempted on a locked account.
    AccountLockedFundsFrozen(TxId),
    /// A withdrawal asked for more than is available.
    InsufficientFundsForWithdrawal(TxId),
    /// A dispute, resolve or chargeback named an id that was never recorded.
    UnknownTxReference(TxId),
    /// A dispute named a withdrawal.
    WithdrawalsAreIndisputable(TxId),
    /// A resolve named a transaction that is not in dispute.
    CantResolveIndisputedTx(TxId),
    /// A chargeback named a transaction that is not in dispute.
    CantChargebackIndisputedTx(TxId),
    /// A dispute named a transaction that is already in dispute.
    DuplicateDispute(TxId),
}

/// `Account` is one's current balance and standing with the bank.
#[derive(Clone, Copy, Debug, PartialEq, Eq, Structural)]
pub struct Account {
    pub client: Client,
    pub available_funds: Money,
    pub held_funds: Money,
    /// are the funds frozen?
    pub locked: bool,
}

/// An account with its balances as unbounded integers, each a count of
/// ten-thousandths.
pub struct AccountView {
    pub client: Client,
    pub available: int,
    pub held: int,
    pub locked: bool,
}

impl AccountView {
    /// The derived total: available plus held.
    pub open spec fn total(self) -> int {
        self.available + self.held
    }

    /// Whether both balances can be held by an `Account`.
    pub open spec fn representable(self) -> bool {
        representable(self.available) && representable(self.held)
    }
}

impl View for Account {
    type V = AccountView;

    open spec fn view(&self) -> AccountView {
        AccountView {
            client: self.client,
            available: self.available_funds@,
            held: self.held_funds@,
            locked: self.locked,
        }
    }
}

/// The line that reports an account: its client, its balances as text with
/// four fractional digits each, and whether it is locked.
#[derive(Clone, Debug, PartialEq, Eq)]
pub struct Report {
    pub client: Client,
    pub available: String,
    pub held: String,
    pub total: String,
    pub locked: bool,
}

/// What applying one transaction comes to: the verdict, and the account and
/// the history as they stand afterwards.
#[verifier::ext_equal]
pub struct Outcome {
    pub result: Result<(), Error>,
    pub account: AccountView,
    pub history: Map<TxId, CompletedTx>,
}

/// The outcome of a refused transaction: the error, and nothing changed.
pub open spec fn refused(
    error: Error,
    account: AccountView,
    history: Map<TxId, CompletedTx>,
) -> Outcome {
    Outcome { result: Err(error), account, history }
}

/// The state machine of an account: what `tx` does to `account` and to the
/// shared `history`. A transaction that is refused changes neither.
///
/// - A deposit adds its amount to the available funds and is recorded. It is
///   refused on a locked account, and under an id that is recorded already.
/// - A withdrawal takes its amount from the available funds and is recorded.
///   It is refused on a locked account, where the available funds would fall
///   below zero, and under an id that is recorded already, in that order.
/// - A dispute moves the recorded amount from available to held and marks the
///   record as disputed; the available funds may fall below zero. It is
///   refused where the id is not recorded, where the record is a withdrawal,
///   and where the record is in dispute already.
/// - A resolve moves the recorded amount back from held to available and
///   clears the mark. It is refused where the id is not recorded or the
///   record is not in dispute.
/// - A chargeback takes the recorded amount from the held funds, locks the
///   account, and sets the recorded amount to zero; the record stays, and
///   stays in dispute. It is refused where the id is not recorded or the
///   record is not in dispute.
///
/// A lock stands in the way of deposits and withdrawals only. The amount of a
/// dispute, resolve or chargeback is that of the record, whatever the
/// account's balances are, and whichever client the transaction names.
pub open spec fn apply(
    account: AccountView,
    tx: Transaction,
    history: Map<TxId, CompletedTx>,
) -> Outcome {
    let id = tx.id;
    match tx.action {
        Action::Deposit { amount } => {
            if account.locked {
                refused(Error::AccountLockedFundsFrozen(id), account, history)
            } else if history.contains_key(id) {
                refused(Error::DuplicateTransaction(id), account, history)
            } else {
                Outcome {
                    result: Ok(()),
                    account: AccountView { available: account.available + amount@, ..account },
                    history: history.insert(
                        id,
                        CompletedTx { kind: CompletedTxKind::Deposit, amount, disputed: false },
                    ),
                }
            }
        },
        Action::Withdrawal { amount } => {
            if account.locked {
                refused(Error::AccountLockedFundsFrozen(id), account, history)
            } else if account.available - amount@ < 0 {
                refused(Error::InsufficientFundsForWithdrawal(id), account, history)
            } else if history.contains_key(id) {
                refused(Error::DuplicateTransaction(id), account, history)
            } else {
                Outcome {
                    result: Ok(()),
                    account: AccountView { available: account.available - amount@, ..account },
                    history: history.insert(
                        id,
                        CompletedTx { kind: CompletedTxKind::Withdrawal, amount, disputed: false },
                    ),
                }
            }
        },
        Action::Dispute => {
            if !history.contains_key(id) {
                refused(Error::UnknownTxReference(id), account, history)
            } else if history[id].kind == CompletedTxKind::Withdrawal {
                refused(Error::WithdrawalsAreIndisputable(id), account, history)
            } else if history[id].disputed {
                refused(Error::DuplicateDispute(id), account, history)
            } else {
                let past = history[id];
                Outcome {
                    result: Ok(()),
                    account: AccountView {
                        available: account.available - past.amount@,
                        held: account.held + past.amount@,
                        ..account
                    },
                    history: history.insert(id, CompletedTx { disputed: true, ..past }),
                }
            }
        },
        Action::Resolve => {
            if !history.contains_key(id) {
                refused(Error::UnknownTxReference(id), account, history)
            } else if !history[id].disputed {
                refused(Error::CantResolveIndisputedTx(id), account, history)
            } else {
                let past = history[id];
                Outcome {
                    result: Ok(()),
                    account: AccountView {
                        available: account.available + past.amount@,
                        held: account.held - past.amount@,
                        ..account
                    },
                    history: history.insert(id, CompletedTx { disputed: false, ..past }),
                }
            }
        },
        Action::Chargeback => {
            if !history.contains_key(id) {
                refused(Error::UnknownTxReference(id), account, history)
            } else if !history[id].disputed {
                refused(Error::CantChargebackIndisputedTx(id), account, history)
            } else {
                let past = history[id];
                Outcome {
                    result: Ok(()),
                    account: AccountView {
                        held: account.held - past.amount@,
                        locked: true,
                        ..account
                    },
                    history: history.insert(id, CompletedTx { amount: Money(0), ..past }),
                }
            }
        },
    }
}

impl Account {
    /// A new account: no funds, not locked.
    pub fn new(client: Client) -> (account: Account)
        ensures
            account@ == (AccountView { client, available: 0, held: 0, locked: false }),
    {
        Account { client, available_funds: Money(0), held_funds: Money(0), locked: false }
    }

    /// Available plus held funds.
    pub fn total(&self) -> (total: Money)
        requires
            representable(self@.total()),
        ensures
            total@ == self@.total(),
    {
        self.available_funds + self.held_funds
    }

    /// Available plus held funds, where `Money` can hold the sum.
    pub fn checked_total(&self) -> (total: Option<Money>)
        ensures
            total == (if representable(self@.total()) {
                Some(Money(self@.total() as i64))
            } else {
                None
            }),
    {
        match self.available_funds.0.checked_add(self.held_funds.0) {
            Some(sum) => Some(Money(sum)),
            None => None,
        }
    }

    /// The line that reports this account.
    pub fn report(&self) -> (report: Report)
        requires
            representable(self@.total()),
        ensures
            report.client == self.client,
            report.available@ == money_text(self@.available),
            report.held@ == money_text(self@.held),
            report.total@ == money_text(self@.total()),
            report.locked == self.locked,
    {
        Report {
            client: self.client,
            available: self.available_funds.format(),
            held: self.held_funds.format(),
            total: self.total().format(),
            locked: self.locked,
        }
    }

    /// Whether applying `tx` would take a balance out of the range that
    /// `Money` can hold. Where it would, `process_transaction` must not be
    /// called: there is no right balance to leave behind.
    pub fn would_overflow(&self, tx: &Transaction, tx_history: &TxHistory) -> (overflow: bool)
        ensures
            overflow == !apply(self@, *tx, tx_history@).account.representable(),
    {
        match tx.action() {
            Action::Deposit { amount } => {
                !self.locked && !tx_history.contains(tx.id()) && self.available_funds.0.checked_add(
                    amount.0,
                ).is_none()
            },
            Action::Withdrawal { amount } => {
                !self.locked && amount.0 < 0 && !tx_history.contains(tx.id())
                    && self.available_funds.0.checked_sub(amount.0).is_none()
            },
            Action::Dispute => {
                match tx_history.get(tx.id()) {
                    Some(past) => {
                        past.kind == CompletedTxKind::Deposit && !past.disputed && (
                        self.available_funds.0.checked_sub(past.amount.0).is_none()
                            || self.held_funds.0.checked_add(past.amount.0).is_none())
                    },
                    None => false,
                }
            },
            Action::Resolve => {
                match tx_history.get(tx.id()) {
                    Some(past) => {
                        past.disputed && (self.available_funds.0.checked_add(
                            past.amount.0,
                        ).is_none() || self.held_funds.0.checked_sub(past.amount.0).is_none())
                    },
                    None => false,
                }
            },
            Action::Chargeback => {
                match tx_history.get(tx.id()) {
                    Some(past) => {
                        past.disputed && self.held_funds.0.checked_sub(past.amount.0).is_none()
                    },
                    None => false,
                }
            },
        }
    }

    /// Applies `tx` to this account and to the shared history, or refuses it
    /// and leaves both as they were. It must not be called where a balance
    /// would leave the range of `Money`, which `would_overflow` tells.
    pub fn process_transaction(&mut self, tx: &Transaction, tx_history: &mut TxHistory) -> (result:
        Result<(), Error>)
        requires
            apply(old(self)@, *tx, old(tx_history)@).account.representable(),
        ensures
            result == apply(old(self)@, *tx, old(tx_history)@).result,
            final(self)@ == apply(old(self)@, *tx, old(tx_history)@).account,
            final(tx_history)@ == apply(old(self)@, *tx, old(tx_history)@).history,
    {
        match tx.action() {
            Action::Deposit { amount } => {
                if self.locked {
                    return Err(Error::AccountLockedFundsFrozen(tx.id()));
                }
                if tx_history.record_transaction(
                    tx.id(),
                    amount,
                    CompletedTxKind::Deposit,
                ).is_err() {
                    return Err(Error::DuplicateTransaction(tx.id()));
                }
                self.available_funds = self.available_funds + amount;
            },
            Action::Withdrawal { amount } => {
                if self.locked {
                    return Err(Error::AccountLockedFundsFrozen(tx.id()));
                }
                let new_available = match self.available_funds.0.checked_sub(amount.0) {
                    Some(difference) => Money(difference),
                    None => {
                        if amount.0 > 0 {
                            return Err(Error::InsufficientFundsForWithdrawal(tx.id()));
                        }
                        Money(0)
                    },
                };
                if new_available.is_negative() {
                    return Err(Error::InsufficientFundsForWithdrawal(tx.id()));
                }
                if tx_history.record_transaction(
                    tx.id(),
                    amount,
                    CompletedTxKind::Withdrawal,
                ).is_err() {
                    return Err(Error::DuplicateTransaction(tx.id()));
                }
                self.available_funds = new_available;
            },
            Action::Dispute => {
                let past_tx = if let Some(past) = tx_history.past_transaction(tx.id()) {
                    past
                } else {
                    return Err(Error::UnknownTxReference(tx.id()));
                };
                match past_tx.kind {
                    CompletedTxKind::Withdrawal => {
                        return Err(Error::WithdrawalsAreIndisputable(tx.id()));
                    },
                    CompletedTxKind::Deposit => (),
                }
                if past_tx.disputed {
                    return Err(Error::DuplicateDispute(tx.id()));
                }
                // this may lead to negative available funds
                let new_available = self.available_funds - past_tx.amount;
                past_tx.disputed = true;
                self.available_funds = new_available;
                self.held_funds = self.held_funds + past_tx.amount;
            },
            Action::Resolve => {
                let past_tx = if let Some(past) = tx_history.past_transaction(tx.id()) {
                    past
                } else {
                    return Err(Error::UnknownTxReference(tx.id()));
                };
                if !past_tx.disputed {
                    return Err(Error::CantResolveIndisputedTx(tx.id()));
                }
                past_tx.disputed = false;
                self.held_funds = self.held_funds - past_tx.amount;
                self.available_funds = self.available_funds + past_tx.amount;
            },
            Action::Chargeback => {
                let past_tx = if let Some(past) = tx_history.past_transaction(tx.id()) {
                    past
                } else {
                    return Err(Error::UnknownTxReference(tx.id()));
                };
                if !past_tx.disputed {
                    return Err(Error::CantChargebackIndisputedTx(tx.id()));
                }
                self.held_funds = self.held_funds - past_tx.amount;
                self.locked = true;
                // zeroing the amount keeps a later chargeback from moving funds again
                past_tx.amount = Money(0);
            },
        }
        Ok(())
    }
}

} // verus!
