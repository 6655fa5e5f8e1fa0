use ledger::account::transaction::Action;
use ledger::account::tx_history::{CompletedTx, CompletedTxKind};
use ledger::account::{Account, Error, Money, Report, Transaction, TxHistory};
use ledger::ledger::Ledger;

fn deposit(tx: u32, client: u16, amount: &str) -> Transaction {
    Transaction::new(Action::new_deposit(Money::parse(amount).unwrap()), client, tx)
}

fn withdrawal(tx: u32, client: u16, amount: &str) -> Transaction {
    Transaction::new(Action::new_withdrawal(Money::parse(amount).unwrap()), client, tx)
}

fn dispute(tx: u32, client: u16) -> Transaction {
    Transaction::new(Action::new_dispute(), client, tx)
}

fn resolve(tx: u32, client: u16) -> Transaction {
    Transaction::new(Action::new_resolve(), client, tx)
}

fn chargeback(tx: u32, client: u16) -> Transaction {
    Transaction::new(Action::new_chargeback(), client, tx)
}

fn money(text: &str) -> Money {
    Money::parse(text).unwrap()
}

#[test]
fn deposit_then_withdrawal() {
    let mut ledger = Ledger::new();
    assert_eq!(ledger.process(&deposit(1, 5, "100.0000")), Ok(()));
    assert_eq!(ledger.process(&withdrawal(2, 5, "30.0000")), Ok(()));
    let account = ledger.account(5);
    assert_eq!(account.client, 5);
    assert_eq!(account.available_funds, money("70.0000"));
    assert_eq!(account.held_funds, Money::zero());
    assert_eq!(account.total(), money("70.0000"));
    assert!(!account.locked);
    assert_eq!(account.available_funds.format(), "70.0000");
    assert_eq!(account.held_funds.format(), "0.0000");
    assert_eq!(account.total().format(), "70.0000");
}

#[test]
fn deposit_then_dispute_then_chargeback() {
    let mut ledger = Ledger::new();
    assert_eq!(ledger.process(&deposit(1, 5, "100.0000")), Ok(()));
    assert_eq!(ledger.process(&dispute(1, 5)), Ok(()));
    let account = ledger.account(5);
    assert_eq!(account.available_funds, Money::zero());
    assert_eq!(account.held_funds, money("100.0000"));
    assert_eq!(account.total(), money("100.0000"));
    assert!(!account.locked);

    assert_eq!(ledger.process(&chargeback(1, 5)), Ok(()));
    let account = ledger.account(5);
    assert_eq!(account.available_funds, Money::zero());
    assert_eq!(account.held_funds, Money::zero());
    assert!(account.locked);

    // the id stays taken, also for a client that never used it
    assert!(!ledger.has_account(9));
    assert_eq!(
        ledger.process(&deposit(1, 9, "1.0000")),
        Err(Error::DuplicateTransaction(1))
    );
    assert!(ledger.has_account(9));
    assert_eq!(ledger.account(9), Account::new(9));
    assert_eq!(
        ledger.process(&withdrawal(1, 9, "0")),
        Err(Error::DuplicateTransaction(1))
    );
}

#[test]
fn withdrawal_from_an_empty_account() {
    let mut history = TxHistory::default();
    let mut account = Account::new(5);
    assert_eq!(
        account.process_transaction(&withdrawal(1, 5, "50.0000"), &mut history),
        Err(Error::InsufficientFundsForWithdrawal(1))
    );
    assert_eq!(account.available_funds, Money::zero());
    assert_eq!(account, Account::new(5));
    // the id was not recorded
    assert!(!history.contains(1));
    assert_eq!(account.process_transaction(&deposit(1, 5, "50.0000"), &mut history), Ok(()));
    assert_eq!(account.process_transaction(&withdrawal(2, 5, "50.0001"), &mut history),
        Err(Error::InsufficientFundsForWithdrawal(2)));
    assert_eq!(account.process_transaction(&withdrawal(2, 5, "50.0000"), &mut history), Ok(()));
    assert_eq!(account.available_funds, Money::zero());
}

#[test]
fn locked_account_still_unwinds_disputes() {
    let mut history = TxHistory::default();
    let mut account = Account::new(5);
    assert_eq!(account.process_transaction(&deposit(1, 5, "10"), &mut history), Ok(()));
    assert_eq!(account.process_transaction(&deposit(2, 5, "20"), &mut history), Ok(()));
    assert_eq!(account.process_transaction(&deposit(3, 5, "40"), &mut history), Ok(()));
    assert_eq!(account.process_transaction(&dispute(1, 5), &mut history), Ok(()));
    assert_eq!(account.process_transaction(&dispute(2, 5), &mut history), Ok(()));
    assert_eq!(account.process_transaction(&chargeback(1, 5), &mut history), Ok(()));
    assert!(account.locked);
    assert_eq!(account.available_funds, money("40"));
    assert_eq!(account.held_funds, money("20"));

    assert_eq!(
        account.process_transaction(&deposit(4, 5, "1"), &mut history),
        Err(Error::AccountLockedFundsFrozen(4))
    );
    assert_eq!(
        account.process_transaction(&withdrawal(5, 5, "1"), &mut history),
        Err(Error::AccountLockedFundsFrozen(5))
    );
    assert!(!history.contains(4));
    assert!(!history.contains(5));

    assert_eq!(account.process_transaction(&resolve(2, 5), &mut history), Ok(()));
    assert_eq!(account.available_funds, money("60"));
    assert_eq!(account.held_funds, Money::zero());
    assert_eq!(account.process_transaction(&dispute(3, 5), &mut history), Ok(()));
    assert_eq!(account.process_transaction(&chargeback(3, 5), &mut history), Ok(()));
    assert_eq!(account.available_funds, money("20"));
    assert_eq!(account.held_funds, Money::zero());
    assert!(account.locked);
}

#[test]
fn every_error_has_its_cause() {
    let mut history = TxHistory::default();
    let mut account = Account::new(1);
    assert_eq!(account.process_transaction(&dispute(7, 1), &mut history), Err(Error::UnknownTxReference(7)));
    assert_eq!(account.process_transaction(&resolve(7, 1), &mut history), Err(Error::UnknownTxReference(7)));
    assert_eq!(account.process_transaction(&chargeback(7, 1), &mut history), Err(Error::UnknownTxReference(7)));
    assert_eq!(account.process_transaction(&deposit(7, 1, "5"), &mut history), Ok(()));
    assert_eq!(account.process_transaction(&deposit(7, 1, "5"), &mut history), Err(Error::DuplicateTransaction(7)));
    assert_eq!(account.process_transaction(&resolve(7, 1), &mut history), Err(Error::CantResolveIndisputedTx(7)));
    assert_eq!(account.process_transaction(&chargeback(7, 1), &mut history), Err(Error::CantChargebackIndisputedTx(7)));
    assert_eq!(account.process_transaction(&withdrawal(8, 1, "6"), &mut history), Err(Error::InsufficientFundsForWithdrawal(8)));
    assert_eq!(account.process_transaction(&withdrawal(8, 1, "2"), &mut history), Ok(()));
    assert_eq!(account.process_transaction(&dispute(8, 1), &mut history), Err(Error::WithdrawalsAreIndisputable(8)));
    assert_eq!(account.process_transaction(&dispute(7, 1), &mut history), Ok(()));
    assert_eq!(account.process_transaction(&dispute(7, 1), &mut history), Err(Error::DuplicateDispute(7)));
    assert_eq!(account.process_transaction(&chargeback(7, 1), &mut history), Ok(()));
    assert_eq!(account.process_transaction(&deposit(9, 1, "5"), &mut history), Err(Error::AccountLockedFundsFrozen(9)));
    // after all that: 5 - 2 available, 5 of them charged back
    assert_eq!(account.available_funds, money("-2"));
    assert_eq!(account.held_funds, Money::zero());
}

#[test]
fn disputing_a_withdrawal_changes_nothing() {
    let mut history = TxHistory::default();
    let mut account = Account::new(1);
    assert_eq!(account.process_transaction(&deposit(1, 1, "10"), &mut history), Ok(()));
    assert_eq!(account.process_transaction(&withdrawal(2, 1, "4"), &mut history), Ok(()));
    let before = account;
    let record = history.get(2);
    for _ in 0..3 {
        assert_eq!(
            account.process_transaction(&dispute(2, 1), &mut history),
            Err(Error::WithdrawalsAreIndisputable(2))
        );
        assert_eq!(account, before);
        assert_eq!(history.get(2), record);
    }
    let mut other = Account::new(2);
    assert_eq!(
        other.process_transaction(&dispute(2, 2), &mut history),
        Err(Error::WithdrawalsAreIndisputable(2))
    );
    assert_eq!(other, Account::new(2));
}

#[test]
fn second_dispute_needs_a_resolve_in_between() {
    let mut ledger = Ledger::new();
    assert_eq!(ledger.process(&deposit(1, 1, "10")), Ok(()));
    assert_eq!(ledger.process(&dispute(1, 1)), Ok(()));
    assert_eq!(ledger.process(&deposit(2, 1, "1")), Ok(()));
    assert_eq!(ledger.process(&resolve(2, 1)), Err(Error::CantResolveIndisputedTx(2)));
    let before = ledger.accounts();
    assert_eq!(ledger.process(&dispute(1, 1)), Err(Error::DuplicateDispute(1)));
    assert_eq!(ledger.process(&dispute(1, 2)), Err(Error::DuplicateDispute(1)));
    assert_eq!(ledger.account(1), before[0]);
    assert_eq!(ledger.account(2), Account::new(2));
    assert_eq!(ledger.process(&resolve(1, 1)), Ok(()));
    assert_eq!(ledger.account(1).available_funds, money("11"));
    assert_eq!(ledger.account(1).held_funds, Money::zero());
    assert_eq!(ledger.process(&dispute(1, 1)), Ok(()));
    assert_eq!(ledger.account(1).held_funds, money("10"));
}

#[test]
fn dispute_may_take_available_funds_below_zero() {
    let mut ledger = Ledger::new();
    assert_eq!(ledger.process(&deposit(1, 1, "10")), Ok(()));
    assert_eq!(ledger.process(&withdrawal(2, 1, "7.5")), Ok(()));
    assert_eq!(ledger.process(&dispute(1, 1)), Ok(()));
    let account = ledger.account(1);
    assert_eq!(account.available_funds, money("-7.5"));
    assert_eq!(account.held_funds, money("10"));
    assert_eq!(account.total(), money("2.5"));
    assert_eq!(ledger.process(&resolve(1, 1)), Ok(()));
    let account = ledger.account(1);
    assert_eq!(account.available_funds, money("2.5"));
    assert_eq!(account.held_funds, Money::zero());
}

#[test]
fn chargeback_zeroes_the_record_and_keeps_it() {
    let mut history = TxHistory::default();
    let mut account = Account::new(1);
    assert_eq!(history.get(1), None);
    assert_eq!(account.process_transaction(&deposit(1, 1, "10"), &mut history), Ok(()));
    assert_eq!(
        history.get(1),
        Some(CompletedTx { kind: CompletedTxKind::Deposit, amount: money("10"), disputed: false })
    );
    assert_eq!(account.process_transaction(&dispute(1, 1), &mut history), Ok(()));
    assert_eq!(
        history.get(1),
        Some(CompletedTx { kind: CompletedTxKind::Deposit, amount: money("10"), disputed: true })
    );
    assert_eq!(account.process_transaction(&chargeback(1, 1), &mut history), Ok(()));
    assert_eq!(
        history.get(1),
        Some(CompletedTx { kind: CompletedTxKind::Deposit, amount: Money::zero(), disputed: true })
    );
    // a second chargeback moves nothing
    let before = account;
    assert_eq!(account.process_transaction(&chargeback(1, 1), &mut history), Ok(()));
    assert_eq!(account, before);
    assert!(history.contains(1));
}

#[test]
fn history_records_an_id_once() {
    let mut history = TxHistory::new();
    assert!(!history.contains(3));
    assert_eq!(history.record_transaction(3, money("1"), CompletedTxKind::Withdrawal), Ok(()));
    assert!(history.contains(3));
    assert_eq!(history.record_transaction(3, money("2"), CompletedTxKind::Deposit), Err(()));
    assert_eq!(
        history.get(3),
        Some(CompletedTx { kind: CompletedTxKind::Withdrawal, amount: money("1"), disputed: false })
    );
    assert!(history.past_transaction(4).is_none());
    let record = history.past_transaction(3).unwrap();
    record.disputed = true;
    assert_eq!(history.get(3).map(|r| r.disputed), Some(true));
}

#[test]
fn snapshot_lists_each_account_once_in_order() {
    let mut ledger = Ledger::new();
    assert!(ledger.accounts().is_empty());
    for tx in [
        deposit(1, 300, "3"),
        deposit(2, 2, "2"),
        deposit(3, 65535, "9"),
        dispute(77, 0),
        deposit(4, 300, "0.5"),
        withdrawal(5, 2, "5"),
    ] {
        let _ = ledger.process(&tx);
    }
    let rows = ledger.accounts();
    let clients: Vec<u16> = rows.iter().map(|a| a.client).collect();
    assert_eq!(clients, vec![0, 2, 300, 65535]);
    assert_eq!(rows[0], Account::new(0));
    assert_eq!(rows[1].available_funds, money("2"));
    assert_eq!(rows[2].available_funds, money("3.5"));
    assert_eq!(rows[3].available_funds, money("9"));
    for row in rows {
        assert_eq!(ledger.account(row.client), row);
        assert!(ledger.has_account(row.client));
    }
    assert!(!ledger.has_account(1));
}

#[test]
fn overflow_is_seen_before_it_happens() {
    let mut history = TxHistory::default();
    let mut account = Account::new(1);
    account.available_funds = Money(i64::MAX);
    let big = Transaction::new(Action::new_deposit(Money(1)), 1, 1);
    assert!(account.would_overflow(&big, &history));
    let fits = Transaction::new(Action::new_deposit(Money(0)), 1, 1);
    assert!(!account.would_overflow(&fits, &history));
    assert_eq!(account.process_transaction(&fits, &mut history), Ok(()));
    // a refused transaction overflows nothing
    assert!(!account.would_overflow(&big, &history));
    assert_eq!(
        account.process_transaction(&big, &mut history),
        Err(Error::DuplicateTransaction(1))
    );

    let mut low = Account::new(2);
    low.available_funds = Money(i64::MIN);
    let take = Transaction::new(Action::new_withdrawal(Money(1)), 2, 9);
    assert!(!low.would_overflow(&take, &history));
    assert_eq!(
        low.process_transaction(&take, &mut history),
        Err(Error::InsufficientFundsForWithdrawal(9))
    );
    assert_eq!(low.available_funds, Money(i64::MIN));

    // a dispute that would take the held funds out of range
    let mut held = Account::new(3);
    held.held_funds = Money(i64::MAX);
    assert_eq!(history.record_transaction(10, Money(1), CompletedTxKind::Deposit), Ok(()));
    assert!(held.would_overflow(&dispute(10, 3), &history));
    assert!(!held.would_overflow(&resolve(10, 3), &history));
    assert!(!held.would_overflow(&dispute(11, 3), &history));
}

#[test]
fn run_stops_before_an_overflow() {
    let mut ledger = Ledger::new();
    let txs = vec![
        deposit(1, 1, "922337203685477.5807"),
        deposit(1, 1, "1"),
        withdrawal(2, 1, "0.5807"),
        deposit(3, 2, "4"),
        deposit(4, 1, "0.5808"),
        deposit(5, 2, "4"),
    ];
    assert!(!ledger.would_overflow(&txs[0]));
    let done = ledger.process_all(&txs);
    assert_eq!(done, 4);
    assert!(ledger.would_overflow(&txs[4]));
    assert_eq!(ledger.account(1).available_funds, money("922337203685477"));
    assert_eq!(ledger.account(2).available_funds, money("4"));

    let mut ledger = Ledger::new();
    let txs = vec![deposit(1, 1, "1"), dispute(1, 1), resolve(1, 1), dispute(2, 1)];
    assert_eq!(ledger.process_all(&txs), 4);
    assert_eq!(ledger.accounts(), vec![Account {
        client: 1,
        available_funds: money("1"),
        held_funds: Money::zero(),
        locked: false,
    }]);
    assert_eq!(ledger.process_all(&Vec::new()), 0);
}

#[test]
fn report_formats_the_balances() {
    let account = Account {
        client: 7,
        available_funds: money("-1.5"),
        held_funds: money("3.25"),
        locked: true,
    };
    assert_eq!(account.checked_total(), Some(money("1.75")));
    assert_eq!(
        account.report(),
        Report {
            client: 7,
            available: String::from("-1.5000"),
            held: String::from("3.2500"),
            total: String::from("1.7500"),
            locked: true,
        }
    );
    let full = Account {
        client: 8,
        available_funds: Money(i64::MAX),
        held_funds: Money(1),
        locked: false,
    };
    assert_eq!(full.checked_total(), None);
    let empty = Account::new(9);
    assert_eq!(empty.checked_total(), Some(Money::zero()));
    assert_eq!(empty.report().total, "0.0000");
}
