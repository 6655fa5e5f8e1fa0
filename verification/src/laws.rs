//! What holds over a whole run of the ledger, whatever the transactions.
use crate::account::laws::{
    lemma_accepted_dispute, lemma_dispute_lasts, lemma_dispute_of_disputed,
    lemma_recorded_id_refused, lemma_records_stay, lemma_withdrawal_indisputable,
};
use crate::account::{Client, Error, Transaction, TxId};
use crate::ledger::LedgerView;
use vstd::prelude::*;

verus! {

/// Whether two ledgers hold the same balances for every client and the same
/// history. An account that was made but never changed counts as not made.
pub open spec fn same_state(a: LedgerView, b: LedgerView) -> bool {
    &&& a.history == b.history
    &&& forall|client: Client| #[trigger] a.account_of(client) == b.account_of(client)
}

/// A transaction that the ledger refuses changes no balance and no record.
pub proof fn lemma_refused_step(ledger: LedgerView, tx: Transaction)
    requires
        ledger.verdict(tx) is Err,
    ensures
        same_state(ledger.step(tx), ledger),
{
}

/// Every account of a ledger stands under its own client, at every point of
/// a run.
pub proof fn lemma_run_well_formed(ledger: LedgerView, txs: Seq<Transaction>)
    requires
        ledger.well_formed(),
    ensures
        ledger.run(txs).well_formed(),
    decreases txs.len(),
{
    if txs.len() > 0 {
        lemma_run_well_formed(ledger, txs.drop_last());
    }
}

/// A transaction id, once recorded, stays recorded for the rest of the run,
/// as the deposit or the withdrawal that it was recorded as.
pub proof fn lemma_run_keeps_records(ledger: LedgerView, txs: Seq<Transaction>, id: TxId)
    requires
        ledger.history.contains_key(id),
    ensures
        ledger.run(txs).history.contains_key(id),
        ledger.run(txs).history[id].kind == ledger.history[id].kind,
    decreases txs.len(),
{
    if txs.len() > 0 {
        lemma_run_keeps_records(ledger, txs.drop_last(), id);
        let before = ledger.run(txs.drop_last());
        lemma_records_stay(before.account_of(txs.last().client), txs.last(), before.history, id);
    }
}

/// A transaction id, once recorded, is never used again: whatever was
/// applied since, a chargeback of that id too, a deposit or a withdrawal
/// under it is refused, for every client, and changes nothing.
pub proof fn lemma_id_never_reused(ledger: LedgerView, txs: Seq<Transaction>, tx: Transaction)
    requires
        ledger.history.contains_key(tx.id),
        tx.action is Deposit || tx.action is Withdrawal,
    ensures
        ledger.run(txs).verdict(tx) is Err,
        same_state(ledger.run(txs).step(tx), ledger.run(txs)),
{
    lemma_run_keeps_records(ledger, txs, tx.id);
    let now = ledger.run(txs);
    lemma_recorded_id_refused(now.account_of(tx.client), tx, now.history);
}

/// Whether no transaction of `txs` is a resolve of `id`.
pub open spec fn no_resolve_of(txs: Seq<Transaction>, id: TxId) -> bool {
    forall|k: int| 0 <= k < txs.len() ==> !(#[trigger] txs[k].action is Resolve && txs[k].id == id)
}

/// A record in dispute is still in dispute after any run that holds no
/// resolve of its id.
pub proof fn lemma_run_keeps_dispute(ledger: LedgerView, txs: Seq<Transaction>, id: TxId)
    requires
        ledger.history.contains_key(id),
        ledger.history[id].disputed,
        no_resolve_of(txs, id),
    ensures
        ledger.run(txs).history.contains_key(id),
        ledger.run(txs).history[id].disputed,
    decreases txs.len(),
{
    if txs.len() > 0 {
        let front = txs.drop_last();
        assert forall|k: int| 0 <= k < front.len() implies !(#[trigger] front[k].action is Resolve
            && front[k].id == id) by {
            assert(front[k] == txs[k]);
        }
        lemma_run_keeps_dispute(ledger, front, id);
        let before = ledger.run(front);
        assert(txs.last() == txs[txs.len() - 1]);
        lemma_dispute_lasts(before.account_of(txs.last().client), txs.last(), before.history, id);
    }
}

/// Disputing the same id twice with no resolve of it in between fails the
/// second time as a duplicate dispute, for every client, and changes
/// nothing.
pub proof fn lemma_second_dispute_refused(
    ledger: LedgerView,
    first: Transaction,
    between: Seq<Transaction>,
    second: Transaction,
)
    requires
        first.action is Dispute,
        ledger.verdict(first) is Ok,
        no_resolve_of(between, first.id),
        second.action is Dispute,
        second.id == first.id,
    ensures
        ledger.step(first).run(between).verdict(second) == Err::<(), Error>(
            Error::DuplicateDispute(second.id),
        ),
        same_state(
            ledger.step(first).run(between).step(second),
            ledger.step(first).run(between),
        ),
{
    let id = first.id;
    let disputed = ledger.step(first);
    lemma_accepted_dispute(ledger.account_of(first.client), first, ledger.history);
    lemma_run_keeps_dispute(disputed, between, id);
    lemma_run_keeps_records(disputed, between, id);
    let now = disputed.run(between);
    lemma_dispute_of_disputed(now.account_of(second.client), second, now.history);
}

/// Disputing a withdrawal always fails: once an id is recorded as a
/// withdrawal, every dispute of it later in the run is refused, for every
/// client, and changes nothing.
pub proof fn lemma_withdrawal_never_disputed(
    ledger: LedgerView,
    txs: Seq<Transaction>,
    dispute: Transaction,
)
    requires
        ledger.history.contains_key(dispute.id),
        ledger.history[dispute.id].kind is Withdrawal,
        dispute.action is Dispute,
    ensures
        ledger.run(txs).verdict(dispute) == Err::<(), Error>(
            Error::WithdrawalsAreIndisputable(dispute.id),
        ),
        same_state(ledger.run(txs).step(dispute), ledger.run(txs)),
{
    lemma_run_keeps_records(ledger, txs, dispute.id);
    let now = ledger.run(txs);
    lemma_withdrawal_indisputable(now.account_of(dispute.client), dispute, now.history);
}

/// An accepted deposit is recorded as a deposit, an accepted withdrawal as a
/// withdrawal, under the id of the transaction.
pub proof fn lemma_accepted_is_recorded(ledger: LedgerView, tx: Transaction)
    requires
        tx.action is Deposit || tx.action is Withdrawal,
        ledger.verdict(tx) is Ok,
    ensures
        ledger.step(tx).history.contains_key(tx.id),
        tx.action is Deposit ==> ledger.step(tx).history[tx.id].kind is Deposit,
        tx.action is Withdrawal ==> ledger.step(tx).history[tx.id].kind is Withdrawal,
{
}

/// After a deposit or a withdrawal was accepted, every later deposit or
/// withdrawal under the same id is refused, for every client and whatever
/// was applied in between, and changes nothing.
pub proof fn lemma_accepted_id_never_reused(
    ledger: LedgerView,
    accepted: Transaction,
    between: Seq<Transaction>,
    again: Transaction,
)
    requires
        accepted.action is Deposit || accepted.action is Withdrawal,
        ledger.verdict(accepted) is Ok,
        again.action is Deposit || again.action is Withdrawal,
        again.id == accepted.id,
    ensures
        ledger.step(accepted).run(between).verdict(again) is Err,
        same_state(
            ledger.step(accepted).run(between).step(again),
            ledger.step(accepted).run(between),
        ),
{
    lemma_accepted_is_recorded(ledger, accepted);
    lemma_id_never_reused(ledger.step(accepted), between, again);
}

/// After a withdrawal was accepted, every later dispute of it is refused,
/// for every client and whatever was applied in between, and changes
/// nothing.
pub proof fn lemma_accepted_withdrawal_never_disputed(
    ledger: LedgerView,
    withdrawal: Transaction,
    between: Seq<Transaction>,
    dispute: Transaction,
)
    requires
        withdrawal.action is Withdrawal,
        ledger.verdict(withdrawal) is Ok,
        dispute.action is Dispute,
        dispute.id == withdrawal.id,
    ensures
        ledger.step(withdrawal).run(between).verdict(dispute) == Err::<(), Error>(
            Error::WithdrawalsAreIndisputable(dispute.id),
        ),
        same_state(
            ledger.step(withdrawal).run(between).step(dispute),
            ledger.step(withdrawal).run(between),
        ),
{
    lemma_accepted_is_recorded(ledger, withdrawal);
    lemma_withdrawal_never_disputed(ledger.step(withdrawal), between, dispute);
}

} // verus!
