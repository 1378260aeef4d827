use payments_engine::accounts::{Account, AccountStore};
use payments_engine::amount::{parse_amount, render_amount};
use payments_engine::decode::{decode_row, parse_kind, DecodeError};
use payments_engine::ledger::LedgerStore;
use payments_engine::processor::{process, process_all, Rejection, TxKind, TxRecord};

fn row(kind: &str, client: u16, tx: u32, amount: &str) -> TxRecord {
    decode_row(kind.as_bytes(), client, tx, amount.as_bytes()).unwrap().unwrap()
}

fn run_rows(rows: &[TxRecord]) -> (LedgerStore, AccountStore) {
    let mut ledger = LedgerStore::new();
    let mut accounts = AccountStore::new();
    process_all(&mut ledger, &mut accounts, &rows.to_vec());
    (ledger, accounts)
}

fn account(accounts: &AccountStore, client: u16) -> Account {
    accounts.lookup(client).unwrap()
}

fn balanced(a: &Account) -> bool {
    a.total == a.available + a.held
}

#[test]
fn two_deposits_add_up() {
    let (_, accounts) = run_rows(&[row("deposit", 1, 1, "5.0"), row("deposit", 1, 2, "3.0")]);
    let a = account(&accounts, 1);
    assert_eq!(a.available, 80000);
    assert_eq!(a.held, 0);
    assert_eq!(a.total, 80000);
    assert!(!a.locked());
}

#[test]
fn deposit_then_withdrawal() {
    let (_, accounts) = run_rows(&[row("deposit", 1, 1, "5.0"), row("withdrawal", 1, 2, "3.0")]);
    let a = account(&accounts, 1);
    assert_eq!(a.available, 20000);
    assert_eq!(a.total, 20000);
}

#[test]
fn dispute_holds_funds_and_locks() {
    let (_, accounts) = run_rows(&[row("deposit", 1, 1, "5.0"), row("dispute", 1, 1, "")]);
    let a = account(&accounts, 1);
    assert_eq!(a.available, 0);
    assert_eq!(a.held, 50000);
    assert_eq!(a.total, 50000);
    assert!(a.locked());
    assert_eq!(a.lock_count, 1);
}

#[test]
fn resolve_releases_funds() {
    let (_, accounts) = run_rows(&[
        row("deposit", 1, 1, "5.0"),
        row("dispute", 1, 1, ""),
        row("resolve", 1, 1, ""),
    ]);
    let a = account(&accounts, 1);
    assert_eq!(a.available, 50000);
    assert_eq!(a.held, 0);
    assert_eq!(a.total, 50000);
    assert!(!a.locked());
}

#[test]
fn chargeback_removes_funds_and_freezes() {
    let mut ledger = LedgerStore::new();
    let mut accounts = AccountStore::new();
    for r in [row("deposit", 1, 1, "5.0"), row("dispute", 1, 1, ""), row("chargeback", 1, 1, "")] {
        assert_eq!(process(&mut ledger, &mut accounts, r), Ok(()));
    }
    let a = account(&accounts, 1);
    assert_eq!(a.available, 0);
    assert_eq!(a.held, 0);
    assert_eq!(a.total, 0);
    assert!(a.locked());
    assert_eq!(process(&mut ledger, &mut accounts, row("deposit", 1, 3, "10.0")), Err(Rejection::Frozen));
    assert_eq!(account(&accounts, 1), a);
    assert!(!ledger.contains(3));
}

#[test]
fn withdrawal_without_account_is_rejected() {
    let mut ledger = LedgerStore::new();
    let mut accounts = AccountStore::new();
    assert_eq!(
        process(&mut ledger, &mut accounts, row("withdrawal", 9, 1, "5.0")),
        Err(Rejection::UnknownClient)
    );
    assert!(accounts.lookup(9).is_none());
    assert_eq!(accounts.snapshot().len(), 0);
    assert_eq!(ledger.len(), 0);
}

#[test]
fn accounts_stay_balanced_through_a_feed() {
    let rows = [
        row("deposit", 1, 1, "5.0"),
        row("deposit", 2, 2, "7.25"),
        row("withdrawal", 1, 3, "1.5"),
        row("dispute", 1, 3, ""),
        row("dispute", 2, 2, ""),
        row("resolve", 1, 3, ""),
        row("chargeback", 2, 2, ""),
        row("deposit", 1, 4, "0.0001"),
    ];
    let mut ledger = LedgerStore::new();
    let mut accounts = AccountStore::new();
    for r in rows {
        let _ = process(&mut ledger, &mut accounts, r);
        for (_, a) in accounts.snapshot() {
            assert!(balanced(&a));
        }
    }
    assert_eq!(account(&accounts, 1).available, 35001);
    assert_eq!(account(&accounts, 2).total, 0);
}

#[test]
fn duplicate_ids_are_rejected() {
    let mut ledger = LedgerStore::new();
    let mut accounts = AccountStore::new();
    assert_eq!(process(&mut ledger, &mut accounts, row("deposit", 1, 1, "5.0")), Ok(()));
    assert_eq!(process(&mut ledger, &mut accounts, row("deposit", 1, 1, "2.0")), Err(Rejection::DuplicateId));
    assert_eq!(process(&mut ledger, &mut accounts, row("withdrawal", 1, 1, "1.0")), Err(Rejection::DuplicateId));
    assert_eq!(process(&mut ledger, &mut accounts, row("withdrawal", 1, 2, "1.0")), Ok(()));
    assert_eq!(process(&mut ledger, &mut accounts, row("deposit", 2, 2, "1.0")), Err(Rejection::DuplicateId));
    assert!(accounts.lookup(2).is_none());
    assert_eq!(account(&accounts, 1).available, 40000);
}

#[test]
fn dispute_resolve_round_trip_restores_account() {
    let mut ledger = LedgerStore::new();
    let mut accounts = AccountStore::new();
    let _ = process(&mut ledger, &mut accounts, row("deposit", 1, 1, "5.0"));
    let _ = process(&mut ledger, &mut accounts, row("deposit", 1, 2, "2.0"));
    let _ = process(&mut ledger, &mut accounts, row("dispute", 1, 1, ""));
    let before = account(&accounts, 1);
    assert_eq!(process(&mut ledger, &mut accounts, row("dispute", 1, 2, "")), Ok(()));
    assert_eq!(process(&mut ledger, &mut accounts, row("resolve", 1, 2, "")), Ok(()));
    assert_eq!(account(&accounts, 1), before);
    assert!(!ledger.lookup(2).unwrap().disputed);
}

#[test]
fn chargeback_freezes_for_good() {
    let mut ledger = LedgerStore::new();
    let mut accounts = AccountStore::new();
    for r in [
        row("deposit", 1, 1, "5.0"),
        row("deposit", 1, 2, "4.0"),
        row("dispute", 1, 1, ""),
        row("dispute", 1, 2, ""),
        row("chargeback", 1, 1, ""),
        row("resolve", 1, 2, ""),
    ] {
        assert_eq!(process(&mut ledger, &mut accounts, r), Ok(()));
    }
    assert_eq!(process(&mut ledger, &mut accounts, row("resolve", 1, 1, "")), Err(Rejection::ChargedBack));
    assert_eq!(process(&mut ledger, &mut accounts, row("chargeback", 1, 1, "")), Err(Rejection::ChargedBack));
    assert_eq!(process(&mut ledger, &mut accounts, row("dispute", 1, 1, "")), Err(Rejection::AlreadyDisputed));
    assert!(account(&accounts, 1).locked());
    assert_eq!(process(&mut ledger, &mut accounts, row("deposit", 1, 3, "1.0")), Err(Rejection::Frozen));
    assert_eq!(process(&mut ledger, &mut accounts, row("withdrawal", 1, 4, "1.0")), Err(Rejection::Frozen));
}

#[test]
fn overdraw_leaves_account_unchanged() {
    let mut ledger = LedgerStore::new();
    let mut accounts = AccountStore::new();
    let _ = process(&mut ledger, &mut accounts, row("deposit", 1, 1, "5.0"));
    let before = account(&accounts, 1);
    assert_eq!(
        process(&mut ledger, &mut accounts, row("withdrawal", 1, 2, "5.0001")),
        Err(Rejection::InsufficientFunds)
    );
    assert_eq!(account(&accounts, 1), before);
    assert!(!ledger.contains(2));
    assert_eq!(process(&mut ledger, &mut accounts, row("withdrawal", 1, 3, "5.0")), Ok(()));
    assert_eq!(account(&accounts, 1).available, 0);
}

#[test]
fn unknown_rows_and_references_are_ignored() {
    assert_eq!(decode_row(b"transfer", 1, 1, b"5.0"), Ok(None));
    assert_eq!(parse_kind(b"Deposit"), None);
    let mut ledger = LedgerStore::new();
    let mut accounts = AccountStore::new();
    let _ = process(&mut ledger, &mut accounts, row("deposit", 1, 1, "5.0"));
    let before = account(&accounts, 1);
    assert_eq!(process(&mut ledger, &mut accounts, row("dispute", 1, 99, "")), Err(Rejection::UnknownTransaction));
    assert_eq!(process(&mut ledger, &mut accounts, row("resolve", 1, 99, "")), Err(Rejection::UnknownTransaction));
    assert_eq!(process(&mut ledger, &mut accounts, row("chargeback", 1, 99, "")), Err(Rejection::UnknownTransaction));
    assert_eq!(process(&mut ledger, &mut accounts, row("dispute", 7, 1, "")), Err(Rejection::ClientMismatch));
    assert_eq!(process(&mut ledger, &mut accounts, row("withdrawal", 7, 2, "1.0")), Err(Rejection::UnknownClient));
    assert_eq!(account(&accounts, 1), before);
    assert!(accounts.lookup(7).is_none());
    assert_eq!(ledger.len(), 1);
}

#[test]
fn each_rejection_reason() {
    let mut ledger = LedgerStore::new();
    let mut accounts = AccountStore::new();
    let rec = |kind, client, tx, amount| TxRecord { kind, client, tx, amount };
    assert_eq!(process(&mut ledger, &mut accounts, rec(TxKind::Deposit, 1, 1, None)), Err(Rejection::MissingAmount));
    assert_eq!(process(&mut ledger, &mut accounts, rec(TxKind::Deposit, 1, 1, Some(0))), Err(Rejection::NonPositiveAmount));
    assert_eq!(process(&mut ledger, &mut accounts, rec(TxKind::Withdrawal, 1, 1, Some(-5))), Err(Rejection::NonPositiveAmount));
    assert_eq!(process(&mut ledger, &mut accounts, rec(TxKind::Deposit, 1, 1, Some(10))), Ok(()));
    assert_eq!(process(&mut ledger, &mut accounts, rec(TxKind::Resolve, 1, 1, None)), Err(Rejection::NotDisputed));
    assert_eq!(process(&mut ledger, &mut accounts, rec(TxKind::Chargeback, 1, 1, None)), Err(Rejection::NotDisputed));
    assert_eq!(process(&mut ledger, &mut accounts, rec(TxKind::Deposit, 1, 2, Some(i64::MAX))), Err(Rejection::Overflow));
    assert_eq!(process(&mut ledger, &mut accounts, rec(TxKind::Deposit, 1, 3, Some(i64::MAX - 10))), Ok(()));
    // A withdrawal disputed after the funds left drives the balance negative.
    assert_eq!(process(&mut ledger, &mut accounts, rec(TxKind::Withdrawal, 1, 4, Some(i64::MAX))), Ok(()));
    assert_eq!(process(&mut ledger, &mut accounts, rec(TxKind::Dispute, 1, 4, None)), Ok(()));
    assert_eq!(process(&mut ledger, &mut accounts, rec(TxKind::Dispute, 1, 4, None)), Err(Rejection::AlreadyDisputed));
    assert_eq!(account(&accounts, 1).available, -i64::MAX);
    assert_eq!(process(&mut ledger, &mut accounts, rec(TxKind::Resolve, 1, 4, None)), Ok(()));
    assert_eq!(process(&mut ledger, &mut accounts, rec(TxKind::Deposit, 2, 5, Some(7))), Ok(()));
    assert_eq!(process(&mut ledger, &mut accounts, rec(TxKind::Deposit, 2, 6, Some(3))), Ok(()));
    assert_eq!(process(&mut ledger, &mut accounts, rec(TxKind::Withdrawal, 2, 7, Some(10))), Ok(()));
    assert_eq!(process(&mut ledger, &mut accounts, rec(TxKind::Dispute, 2, 7, None)), Ok(()));
    assert_eq!(process(&mut ledger, &mut accounts, rec(TxKind::Resolve, 2, 7, None)), Ok(()));
    assert_eq!(process(&mut ledger, &mut accounts, rec(TxKind::Dispute, 2, 7, None)), Ok(()));
    assert_eq!(process(&mut ledger, &mut accounts, rec(TxKind::Chargeback, 2, 7, None)), Ok(()));
    let a = account(&accounts, 2);
    assert_eq!((a.available, a.held, a.total, a.lock_count), (-10, 0, -10, 1));
    let mut l2 = LedgerStore::new();
    let mut a2 = AccountStore::new();
    assert_eq!(process(&mut l2, &mut a2, rec(TxKind::Deposit, 3, 1, Some(10))), Ok(()));
    assert_eq!(process(&mut l2, &mut a2, rec(TxKind::Deposit, 3, 2, Some(20))), Ok(()));
    assert_eq!(process(&mut l2, &mut a2, rec(TxKind::Dispute, 3, 2, None)), Ok(()));
    assert_eq!(process(&mut l2, &mut a2, rec(TxKind::Resolve, 3, 2, None)), Ok(()));
    assert_eq!(process(&mut l2, &mut a2, rec(TxKind::Withdrawal, 3, 3, Some(30))), Ok(()));
    assert_eq!(process(&mut l2, &mut a2, rec(TxKind::Dispute, 3, 2, None)), Ok(()));
    assert_eq!(process(&mut l2, &mut a2, rec(TxKind::Resolve, 3, 2, None)), Ok(()));
    assert_eq!(process(&mut l2, &mut a2, rec(TxKind::Dispute, 3, 1, None)), Ok(()));
    assert_eq!(process(&mut l2, &mut a2, rec(TxKind::Resolve, 3, 1, None)), Ok(()));
    assert_eq!(account(&a2, 3).available, 0);
    assert_eq!(process(&mut l2, &mut a2, rec(TxKind::Dispute, 3, 1, None)), Ok(()));
    assert_eq!(process(&mut l2, &mut a2, rec(TxKind::Chargeback, 3, 1, None)), Ok(()));
    assert_eq!(account(&a2, 3).available, -10);
}

#[test]
fn disputed_withdrawal_can_drive_balance_negative() {
    let mut ledger = LedgerStore::new();
    let mut accounts = AccountStore::new();
    for r in [
        row("deposit", 1, 1, "5.0"),
        row("withdrawal", 1, 2, "5.0"),
        row("dispute", 1, 2, ""),
        row("chargeback", 1, 2, ""),
    ] {
        assert_eq!(process(&mut ledger, &mut accounts, r), Ok(()));
    }
    assert_eq!(account(&accounts, 1).available, -50000);
    let mut l2 = LedgerStore::new();
    let mut a2 = AccountStore::new();
    for r in [row("deposit", 1, 1, "5.0"), row("withdrawal", 1, 2, "5.0"), row("dispute", 1, 2, "")] {
        assert_eq!(process(&mut l2, &mut a2, r), Ok(()));
    }
    assert_eq!(process(&mut l2, &mut a2, row("withdrawal", 1, 3, "1.0")), Err(Rejection::Frozen));
}

#[test]
fn snapshot_lists_each_client_once() {
    let (_, accounts) = run_rows(&[
        row("deposit", 3, 1, "1"),
        row("deposit", 1, 2, "2"),
        row("deposit", 3, 3, "3"),
    ]);
    let snap = accounts.snapshot();
    assert_eq!(snap.len(), 2);
    assert_eq!(accounts.len(), 2);
    assert_eq!(snap[0].0, 3);
    assert_eq!(snap[0].1.total, 40000);
    assert_eq!(snap[1].0, 1);
    assert_eq!(snap[1].1.total, 20000);
}

#[test]
fn amounts_parse_to_fixed_point() {
    assert_eq!(parse_amount(b"5.0"), Some(50000));
    assert_eq!(parse_amount(b"5"), Some(50000));
    assert_eq!(parse_amount(b"5."), Some(50000));
    assert_eq!(parse_amount(b".5"), Some(5000));
    assert_eq!(parse_amount(b"2.7183"), Some(27183));
    assert_eq!(parse_amount(b"-1.25"), Some(-12500));
    assert_eq!(parse_amount(b"0.0001"), Some(1));
    assert_eq!(parse_amount(b"922337203685477.5807"), Some(i64::MAX));
    assert_eq!(parse_amount(b"922337203685477.5808"), None);
    assert_eq!(parse_amount(b"922337203685478"), None);
    assert_eq!(parse_amount(b"1.00001"), None);
    assert_eq!(parse_amount(b""), None);
    assert_eq!(parse_amount(b"."), None);
    assert_eq!(parse_amount(b"-"), None);
    assert_eq!(parse_amount(b"1.2.3"), None);
    assert_eq!(parse_amount(b"1a"), None);
    assert_eq!(parse_amount(b"1.a"), None);
}

#[test]
fn rows_decode_with_their_amounts() {
    assert_eq!(
        decode_row(b"deposit", 4, 8, b"1.5"),
        Ok(Some(TxRecord { kind: TxKind::Deposit, client: 4, tx: 8, amount: Some(15000) }))
    );
    assert_eq!(
        decode_row(b"withdrawal", 4, 9, b""),
        Ok(Some(TxRecord { kind: TxKind::Withdrawal, client: 4, tx: 9, amount: None }))
    );
    assert_eq!(
        decode_row(b"dispute", 4, 8, b"3.0"),
        Ok(Some(TxRecord { kind: TxKind::Dispute, client: 4, tx: 8, amount: None }))
    );
    assert_eq!(parse_kind(b"resolve"), Some(TxKind::Resolve));
    assert_eq!(parse_kind(b"chargeback"), Some(TxKind::Chargeback));
    assert_eq!(decode_row(b"deposit", 4, 8, b"abc"), Err(DecodeError::MalformedAmount));
    assert_eq!(decode_row(b"bogus", 4, 8, b"abc"), Err(DecodeError::MalformedAmount));
}

#[test]
fn amounts_render_without_trailing_zeros() {
    assert_eq!(render_amount(80000), b"8".to_vec());
    assert_eq!(render_amount(0), b"0".to_vec());
    assert_eq!(render_amount(25000), b"2.5".to_vec());
    assert_eq!(render_amount(12340), b"1.234".to_vec());
    assert_eq!(render_amount(-1), b"-0.0001".to_vec());
    assert_eq!(render_amount(-50000), b"-5".to_vec());
    assert_eq!(render_amount(1234567), b"123.4567".to_vec());
    assert_eq!(render_amount(i64::MAX), b"922337203685477.5807".to_vec());
    assert_eq!(render_amount(i64::MIN), b"-922337203685477.5808".to_vec());
}
