//! What holds of the account state machine, whatever the account, the
//! transaction and the history.
use super::tx_history::CompletedTx;
use super::{apply, AccountView, Error, Money, Transaction, TxId};
use vstd::prelude::*;

verus! {

/// A refused transaction leaves the account and the history as they were.
pub proof fn lemma_refusal_changes_nothing(
    account: AccountView,
    tx: Transaction,
    history: Map<TxId, CompletedTx>,
)
    requires
        apply(account, tx, history).result is Err,
    ensures
        apply(account, tx, history).account == account,
        apply(account, tx, history).history == history,
{
}

/// No transaction changes the client of an account, and none unlocks it.
pub proof fn lemma_client_and_lock_stay(
    account: AccountView,
    tx: Transaction,
    history: Map<TxId, CompletedTx>,
)
    ensures
        apply(account, tx, history).account.client == account.client,
        account.locked ==> apply(account, tx, history).account.locked,
{
}

/// A record, once made, stays, and stays a deposit or a withdrawal as it was
/// made: no transaction removes a record or changes its kind.
pub proof fn lemma_records_stay(
    account: AccountView,
    tx: Transaction,
    history: Map<TxId, CompletedTx>,
    id: TxId,
)
    requires
        history.contains_key(id),
    ensures
        apply(account, tx, history).history.contains_key(id),
        apply(account, tx, history).history[id].kind == history[id].kind,
{
}

/// A transaction changes no record but the one under its own id.
pub proof fn lemma_other_records_untouched(
    account: AccountView,
    tx: Transaction,
    history: Map<TxId, CompletedTx>,
    id: TxId,
)
    requires
        id != tx.id,
    ensures
        apply(account, tx, history).history.contains_key(id) == history.contains_key(id),
        history.contains_key(id) ==> apply(account, tx, history).history[id] == history[id],
{
}

/// A deposit or withdrawal under an id that is recorded is refused, whatever
/// became of the record since, and changes nothing.
pub proof fn lemma_recorded_id_refused(
    account: AccountView,
    tx: Transaction,
    history: Map<TxId, CompletedTx>,
)
    requires
        history.contains_key(tx.id),
        tx.action is Deposit || tx.action is Withdrawal,
    ensures
        apply(account, tx, history).result is Err,
        !account.locked && tx.action is Deposit ==> apply(account, tx, history).result == Err::<
            (),
            Error,
        >(Error::DuplicateTransaction(tx.id)),
        apply(account, tx, history).account == account,
        apply(account, tx, history).history == history,
{
}

/// A record in dispute stays in dispute until a resolve names it.
pub proof fn lemma_dispute_lasts(
    account: AccountView,
    tx: Transaction,
    history: Map<TxId, CompletedTx>,
    id: TxId,
)
    requires
        history.contains_key(id),
        history[id].disputed,
        !(tx.action is Resolve && tx.id == id),
    ensures
        apply(account, tx, history).history.contains_key(id),
        apply(account, tx, history).history[id].disputed,
{
}

/// A dispute of a deposit that is in dispute is refused as a duplicate, on
/// any account, and changes nothing.
pub proof fn lemma_dispute_of_disputed(
    account: AccountView,
    tx: Transaction,
    history: Map<TxId, CompletedTx>,
)
    requires
        tx.action is Dispute,
        history.contains_key(tx.id),
        history[tx.id].kind is Deposit,
        history[tx.id].disputed,
    ensures
        apply(account, tx, history).result == Err::<(), Error>(Error::DuplicateDispute(tx.id)),
        apply(account, tx, history).account == account,
        apply(account, tx, history).history == history,
{
}

/// A dispute that is accepted leaves a deposit in dispute.
pub proof fn lemma_accepted_dispute(
    account: AccountView,
    tx: Transaction,
    history: Map<TxId, CompletedTx>,
)
    requires
        tx.action is Dispute,
        apply(account, tx, history).result is Ok,
    ensures
        apply(account, tx, history).history.contains_key(tx.id),
        apply(account, tx, history).history[tx.id].kind is Deposit,
        apply(account, tx, history).history[tx.id].disputed,
{
}

/// A dispute of a withdrawal is refused, on any account, and changes
/// nothing.
pub proof fn lemma_withdrawal_indisputable(
    account: AccountView,
    tx: Transaction,
    history: Map<TxId, CompletedTx>,
)
    requires
        tx.action is Dispute,
        history.contains_key(tx.id),
        history[tx.id].kind is Withdrawal,
    ensures
        apply(account, tx, history).result == Err::<(), Error>(
            Error::WithdrawalsAreIndisputable(tx.id),
        ),
        apply(account, tx, history).account == account,
        apply(account, tx, history).history == history,
{
}

/// An accepted withdrawal never takes the available funds below zero.
pub proof fn lemma_withdrawal_keeps_funds(
    account: AccountView,
    tx: Transaction,
    history: Map<TxId, CompletedTx>,
)
    requires
        tx.action is Withdrawal,
        apply(account, tx, history).result is Ok,
    ensures
        apply(account, tx, history).account.available >= 0,
{
}

/// Held funds change in matched pairs. A resolve gives back exactly what the
/// dispute took: after an accepted dispute, the resolve of the same id on the
/// same account is accepted and leaves the account and the history as they
/// were before the dispute.
pub proof fn lemma_resolve_undoes_dispute(
    account: AccountView,
    history: Map<TxId, CompletedTx>,
    dispute: Transaction,
    resolve: Transaction,
)
    requires
        dispute.action is Dispute,
        resolve.action is Resolve,
        resolve.id == dispute.id,
        apply(account, dispute, history).result is Ok,
    ensures
        ({
            let disputed = apply(account, dispute, history);
            let resolved = apply(disputed.account, resolve, disputed.history);
            &&& resolved.result is Ok
            &&& resolved.account == account
            &&& resolved.history == history
        }),
{
    let disputed = apply(account, dispute, history);
    let resolved = apply(disputed.account, resolve, disputed.history);
    assert(resolved.history =~= history);
}

/// A chargeback takes from the held funds exactly what the dispute put
/// there, locks the account, and leaves the record in place with its amount
/// at zero.
pub proof fn lemma_chargeback_after_dispute(
    account: AccountView,
    history: Map<TxId, CompletedTx>,
    dispute: Transaction,
    chargeback: Transaction,
)
    requires
        dispute.action is Dispute,
        chargeback.action is Chargeback,
        chargeback.id == dispute.id,
        apply(account, dispute, history).result is Ok,
    ensures
        ({
            let disputed = apply(account, dispute, history);
            let charged = apply(disputed.account, chargeback, disputed.history);
            &&& charged.result is Ok
            &&& charged.account.held == account.held
            &&& charged.account.available == account.available - history[dispute.id].amount@
            &&& charged.account.locked
            &&& charged.history.contains_key(dispute.id)
            &&& charged.history[dispute.id].amount == Money(0)
        }),
{
}

/// A locked account refuses deposits and withdrawals, and still takes part in
/// disputes, resolves and chargebacks: for those the verdict does not depend
/// on the lock.
pub proof fn lemma_lock_blocks_new_funds_only(
    account: AccountView,
    tx: Transaction,
    history: Map<TxId, CompletedTx>,
)
    requires
        account.locked,
    ensures
        tx.action is Deposit || tx.action is Withdrawal ==> apply(account, tx, history).result
            == Err::<(), Error>(Error::AccountLockedFundsFrozen(tx.id)),
        !(tx.action is Deposit || tx.action is Withdrawal) ==> apply(account, tx, history).result
            == apply(AccountView { locked: false, ..account }, tx, history).result,
{
}

} // verus!
