//! The ledger: one account per client, made when the client is first named,
//! and the history of settled transactions that all accounts share.
use crate::account::tx_history::CompletedTx;
use crate::account::{apply, Account, AccountView, Client, Error, Transaction, TxHistory, TxId};
use std::collections::HashMap;
use vstd::prelude::*;

verus! {

/// The state of a ledger: the accounts made so far, and the shared history.
#[verifier::ext_equal]
pub struct LedgerView {
    pub accounts: Map<Client, AccountView>,
    pub history: Map<TxId, CompletedTx>,
}

/// An account as it is made: no funds, not locked.
pub open spec fn fresh_account(client: Client) -> AccountView {
    AccountView { client, available: 0, held: 0, locked: false }
}

impl LedgerView {
    /// A ledger before any transaction: no account, nothing recorded.
    pub open spec fn empty() -> LedgerView {
        LedgerView { accounts: Map::empty(), history: Map::empty() }
    }

    /// Whether every account stands under its own client.
    pub open spec fn well_formed(self) -> bool {
        forall|client: Client| #[trigger]
            self.accounts.contains_key(client) ==> self.accounts[client].client == client
    }

    /// The account of `client`: the one made already, or a fresh one.
    pub open spec fn account_of(self, client: Client) -> AccountView {
        if self.accounts.contains_key(client) {
            self.accounts[client]
        } else {
            fresh_account(client)
        }
    }

    /// What the ledger answers to `tx`.
    pub open spec fn verdict(self, tx: Transaction) -> Result<(), Error> {
        apply(self.account_of(tx.client), tx, self.history).result
    }

    /// The ledger after `tx`: the client's account, made if need be, and the
    /// history are as the account's state machine leaves them. A refused
    /// transaction still makes the account.
    pub open spec fn step(self, tx: Transaction) -> LedgerView {
        let outcome = apply(self.account_of(tx.client), tx, self.history);
        LedgerView {
            accounts: self.accounts.insert(tx.client, outcome.account),
            history: outcome.history,
        }
    }

    /// The ledger after the transactions of `txs`, applied in order.
    pub open spec fn run(self, txs: Seq<Transaction>) -> LedgerView
        decreases txs.len(),
    {
        if txs.len() == 0 {
            self
        } else {
            self.run(txs.drop_last()).step(txs.last())
        }
    }

    /// Whether `tx` would take a balance out of the range of `Money`.
    pub open spec fn overflows(self, tx: Transaction) -> bool {
        !apply(self.account_of(tx.client), tx, self.history).account.representable()
    }
}

/// Whether `rows` is the snapshot of the ledger: each account once, in the
/// order of the clients' identifiers, and nothing else.
pub open spec fn is_snapshot(ledger: LedgerView, rows: Seq<Account>) -> bool {
    &&& forall|i: int, j: int| 0 <= i < j < rows.len() ==> rows[i].client < rows[j].client
    &&& forall|i: int|
        0 <= i < rows.len() ==> ledger.accounts.contains_key(#[trigger] rows[i].client)
            && rows[i]@ == ledger.accounts[rows[i].client]
    &&& forall|client: Client| #[trigger]
        ledger.accounts.contains_key(client) ==> exists|i: int|
            0 <= i < rows.len() && #[trigger] rows[i].client == client
}

/// The accounts of all clients named so far, and the history they share.
pub struct Ledger {
    accounts: HashMap<Client, Account>,
    history: TxHistory,
}

impl View for Ledger {
    type V = LedgerView;

    closed spec fn view(&self) -> LedgerView {
        LedgerView {
            accounts: Map::new(
                |client: Client| self.accounts@.contains_key(client),
                |client: Client| AccountView { client, ..self.accounts@[client]@ },
            ),
            history: self.history@,
        }
    }
}

impl Ledger {
    /// A ledger with no account and nothing recorded.
    pub fn new() -> (ledger: Ledger)
        ensures
            ledger@ == LedgerView::empty(),
    {
        let ledger = Ledger { accounts: HashMap::new(), history: TxHistory::new() };
        assert(ledger@.accounts =~= Map::<Client, AccountView>::empty());
        ledger
    }

    /// Every account of a ledger stands under its own client.
    pub proof fn lemma_well_formed(&self)
        ensures
            self@.well_formed(),
    {
    }

    /// The account of `client` as it stands, or as it would be made.
    pub fn account(&self, client: Client) -> (account: Account)
        ensures
            account@ == self@.account_of(client),
    {
        match self.accounts.get(&client) {
            Some(account) => Account { client, ..*account },
            None => Account::new(client),
        }
    }

    /// Whether an account was made for `client`.
    pub fn has_account(&self, client: Client) -> (found: bool)
        ensures
            found == self@.accounts.contains_key(client),
    {
        self.accounts.contains_key(&client)
    }

    /// The accounts made so far, each once, in the order of the clients'
    /// identifiers.
    pub fn accounts(&self) -> (rows: Vec<Account>)
        ensures
            is_snapshot(self@, rows@),
    {
        let mut rows: Vec<Account> = Vec::new();
        let mut next: u32 = 0;
        while next <= 65535
            invariant
                next <= 65536,
                forall|i: int, j: int| 0 <= i < j < rows.len() ==> rows[i].client < rows[j].client,
                forall|i: int| 0 <= i < rows.len() ==> #[trigger] rows[i].client < next,
                forall|i: int|
                    0 <= i < rows.len() ==> self@.accounts.contains_key(#[trigger] rows[i].client)
                        && rows[i]@ == self@.accounts[rows[i].client],
                forall|client: Client| #[trigger]
                    self@.accounts.contains_key(client) && client < next ==> exists|i: int|
                        0 <= i < rows.len() && #[trigger] rows[i].client == client,
            decreases 65536 - next,
        {
            let client = next as Client;
            if self.has_account(client) {
                let account = self.account(client);
                let ghost before = rows@;
                rows.push(account);
                assert forall|c: Client| #[trigger]
                    self@.accounts.contains_key(c) && c < next + 1 implies exists|i: int|
                    0 <= i < rows.len() && #[trigger] rows[i].client == c by {
                    if c < next {
                        let i = choose|i: int| 0 <= i < before.len() && #[trigger] before[i].client == c;
                        assert(rows[i].client == c);
                    } else {
                        assert(rows[rows.len() - 1].client == c);
                    }
                }
            }
            next = next + 1;
        }
        rows
    }

    /// Whether applying `tx` would take a balance out of the range of
    /// `Money`. Where it would, `process` must not be called.
    pub fn would_overflow(&self, tx: &Transaction) -> (overflow: bool)
        ensures
            overflow == self@.overflows(*tx),
    {
        let account = self.account(tx.client());
        account.would_overflow(tx, &self.history)
    }

    /// Applies `tx` to the account of its client, which is made if this is
    /// the first transaction that names the client.
    pub fn process(&mut self, tx: &Transaction) -> (result: Result<(), Error>)
        requires
            !old(self)@.overflows(*tx),
        ensures
            result == old(self)@.verdict(*tx),
            final(self)@ == old(self)@.step(*tx),
    {
        let client = tx.client();
        let mut account = self.account(client);
        let result = account.process_transaction(tx, &mut self.history);
        self.accounts.insert(client, account);
        assert(self@.accounts =~= old(self)@.step(*tx).accounts);
        result
    }

    /// Applies the transactions of `txs` in the order given. A transaction
    /// that is refused has no effect and the run goes on. The run stops
    /// before the first transaction that would take a balance out of the
    /// range of `Money`; `done` is the number of transactions applied, all
    /// of them unless it stopped.
    pub fn process_all(&mut self, txs: &Vec<Transaction>) -> (done: usize)
        ensures
            done <= txs.len(),
            final(self)@ == old(self)@.run(txs@.take(done as int)),
            done < txs.len() ==> final(self)@.overflows(txs[done as int]),
    {
        let ghost start = self@;
        let mut done: usize = 0;
        assert(txs@.take(0) =~= Seq::<Transaction>::empty());
        while done < txs.len()
            invariant
                done <= txs.len(),
                start == old(self)@,
                self@ == start.run(txs@.take(done as int)),
            decreases txs.len() - done,
        {
            let tx = &txs[done];
            if self.would_overflow(tx) {
                return done;
            }
            let _ = self.process(tx);
            proof {
                assert(txs@.take(done + 1).drop_last() =~= txs@.take(done as int));
                assert(txs@.take(done + 1).last() == txs[done as int]);
            }
            done = done + 1;
        }
        done
    }
}

} // verus!
