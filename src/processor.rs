use crate::accounts::{Account, AccountStore};
use crate::laws::{consistent, lemma_run_keeps_consistent, lemma_step_keeps_consistent};
use crate::ledger::{LedgerEntry, LedgerStore};
use vstd::prelude::*;

verus! {

/// The five kinds of transaction the processor understands.
#[derive(Clone, Copy, Debug, PartialEq, Eq)]
pub enum TxKind {
    Deposit,
    Withdrawal,
    Dispute,
    Resolve,
    Chargeback,
}

/// One decoded transaction. `tx` is the transaction's own id for a deposit or
/// withdrawal, and the id of the referenced transaction for the dispute kinds.
/// `amount` (fixed-point units) is read for deposits and withdrawals only.
#[derive(Clone, Copy, Debug, PartialEq, Eq)]
pub struct TxRecord {
    pub kind: TxKind,
    pub client: u16,
    pub tx: u32,
    pub amount: Option<i64>,
}

/// Why a transaction was discarded. A rejected transaction changes nothing.
#[derive(Clone, Copy, Debug, PartialEq, Eq)]
pub enum Rejection {
    /// The id of a deposit or withdrawal is already in the history.
    DuplicateId,
    /// A deposit or withdrawal without an amount.
    MissingAmount,
    /// A deposit or withdrawal whose amount is zero or negative.
    NonPositiveAmount,
    /// The client has no account.
    UnknownClient,
    /// The account has open disputes.
    Frozen,
    /// A withdrawal while the available balance is negative.
    NegativeBalance,
    /// A withdrawal of more than is available.
    InsufficientFunds,
    /// The referenced transaction is not in the history.
    UnknownTransaction,
    /// A dispute against a transaction that is already disputed.
    AlreadyDisputed,
    /// A resolve or chargeback against a transaction that is not disputed.
    NotDisputed,
    /// A resolve or chargeback against a transaction that was charged back.
    ChargedBack,
    /// The referenced transaction belongs to another client.
    ClientMismatch,
    /// A balance would leave the range of the fixed-point type.
    Overflow,
}

/// The ledger and the accounts, as mathematical maps.
pub type Books = (Map<u32, LedgerEntry>, Map<u16, Account>);

pub open spec fn fits(v: int) -> bool {
    i64::MIN <= v <= i64::MAX
}

pub open spec fn zero_account() -> Account {
    Account { available: 0, held: 0, total: 0, lock_count: 0 }
}

/// Outcome of a deposit.
pub open spec fn deposit_step(
    l: Map<u32, LedgerEntry>,
    a: Map<u16, Account>,
    client: u16,
    id: u32,
    amount: Option<i64>,
) -> Result<Books, Rejection> {
    if l.contains_key(id) {
        Err(Rejection::DuplicateId)
    } else if amount is None {
        Err(Rejection::MissingAmount)
    } else if amount.unwrap() <= 0 {
        Err(Rejection::NonPositiveAmount)
    } else if a.contains_key(client) && a[client].lock_count > 0 {
        Err(Rejection::Frozen)
    } else {
        let x = amount.unwrap();
        let acc = if a.contains_key(client) { a[client] } else { zero_account() };
        if !fits(acc.available + x) || !fits(acc.total + x) {
            Err(Rejection::Overflow)
        } else {
            Ok((
                l.insert(id, LedgerEntry { client, amount: x, disputed: false, charged_back: false }),
                a.insert(client, Account {
                    available: (acc.available + x) as i64,
                    held: acc.held,
                    total: (acc.total + x) as i64,
                    lock_count: acc.lock_count,
                }),
            ))
        }
    }
}

/// Outcome of a withdrawal.
pub open spec fn withdrawal_step(
    l: Map<u32, LedgerEntry>,
    a: Map<u16, Account>,
    client: u16,
    id: u32,
    amount: Option<i64>,
) -> Result<Books, Rejection> {
    if l.contains_key(id) {
        Err(Rejection::DuplicateId)
    } else if amount is None {
        Err(Rejection::MissingAmount)
    } else if amount.unwrap() <= 0 {
        Err(Rejection::NonPositiveAmount)
    } else if !a.contains_key(client) {
        Err(Rejection::UnknownClient)
    } else if a[client].lock_count > 0 {
        Err(Rejection::Frozen)
    } else if a[client].available < 0 {
        Err(Rejection::NegativeBalance)
    } else if a[client].available < amount.unwrap() {
        Err(Rejection::InsufficientFunds)
    } else {
        let x = amount.unwrap();
        let acc = a[client];
        if !fits(acc.total - x) {
            Err(Rejection::Overflow)
        } else {
            Ok((
                l.insert(id, LedgerEntry { client, amount: x, disputed: false, charged_back: false }),
                a.insert(client, Account {
                    available: (acc.available - x) as i64,
                    held: acc.held,
                    total: (acc.total - x) as i64,
                    lock_count: acc.lock_count,
                }),
            ))
        }
    }
}

/// Outcome of a dispute against transaction `id`.
pub open spec fn dispute_step(
    l: Map<u32, LedgerEntry>,
    a: Map<u16, Account>,
    client: u16,
    id: u32,
) -> Result<Books, Rejection> {
    if !l.contains_key(id) {
        Err(Rejection::UnknownTransaction)
    } else if l[id].disputed {
        Err(Rejection::AlreadyDisputed)
    } else if l[id].client != client {
        Err(Rejection::ClientMismatch)
    } else if !a.contains_key(client) {
        Err(Rejection::UnknownClient)
    } else {
        let e = l[id];
        let acc = a[client];
        if !fits(acc.available - e.amount) || !fits(acc.held + e.amount) {
            Err(Rejection::Overflow)
        } else {
            Ok((
                l.insert(id, LedgerEntry { disputed: true, ..e }),
                a.insert(client, Account {
                    available: (acc.available - e.amount) as i64,
                    held: (acc.held + e.amount) as i64,
                    total: acc.total,
                    lock_count: if acc.lock_count == u64::MAX { acc.lock_count } else { (acc.lock_count + 1) as u64 },
                }),
            ))
        }
    }
}

/// Outcome of resolving the dispute against transaction `id`.
pub open spec fn resolve_step(
    l: Map<u32, LedgerEntry>,
    a: Map<u16, Account>,
    client: u16,
    id: u32,
) -> Result<Books, Rejection> {
    if !l.contains_key(id) {
        Err(Rejection::UnknownTransaction)
    } else if !l[id].disputed {
        Err(Rejection::NotDisputed)
    } else if l[id].charged_back {
        Err(Rejection::ChargedBack)
    } else if l[id].client != client {
        Err(Rejection::ClientMismatch)
    } else if !a.contains_key(client) {
        Err(Rejection::UnknownClient)
    } else {
        let e = l[id];
        let acc = a[client];
        if !fits(acc.available + e.amount) || !fits(acc.held - e.amount) {
            Err(Rejection::Overflow)
        } else {
            Ok((
                l.insert(id, LedgerEntry { disputed: false, ..e }),
                a.insert(client, Account {
                    available: (acc.available + e.amount) as i64,
                    held: (acc.held - e.amount) as i64,
                    total: acc.total,
                    lock_count: if acc.lock_count == 0 { 0 } else { (acc.lock_count - 1) as u64 },
                }),
            ))
        }
    }
}

/// Outcome of a chargeback of the disputed transaction `id`.
pub open spec fn chargeback_step(
    l: Map<u32, LedgerEntry>,
    a: Map<u16, Account>,
    client: u16,
    id: u32,
) -> Result<Books, Rejection> {
    if !l.contains_key(id) {
        Err(Rejection::UnknownTransaction)
    } else if !l[id].disputed {
        Err(Rejection::NotDisputed)
    } else if l[id].charged_back {
        Err(Rejection::ChargedBack)
    } else if l[id].client != client {
        Err(Rejection::ClientMismatch)
    } else if !a.contains_key(client) {
        Err(Rejection::UnknownClient)
    } else {
        let e = l[id];
        let acc = a[client];
        if !fits(acc.held - e.amount) || !fits(acc.total - e.amount) {
            Err(Rejection::Overflow)
        } else {
            Ok((
                l.insert(id, LedgerEntry { charged_back: true, ..e }),
                a.insert(client, Account {
                    available: acc.available,
                    held: (acc.held - e.amount) as i64,
                    total: (acc.total - e.amount) as i64,
                    lock_count: acc.lock_count,
                }),
            ))
        }
    }
}

/// Outcome of one transaction of any kind.
pub open spec fn step(l: Map<u32, LedgerEntry>, a: Map<u16, Account>, r: TxRecord) -> Result<Books, Rejection> {
    match r.kind {
        TxKind::Deposit => deposit_step(l, a, r.client, r.tx, r.amount),
        TxKind::Withdrawal => withdrawal_step(l, a, r.client, r.tx, r.amount),
        TxKind::Dispute => dispute_step(l, a, r.client, r.tx),
        TxKind::Resolve => resolve_step(l, a, r.client, r.tx),
        TxKind::Chargeback => chargeback_step(l, a, r.client, r.tx),
    }
}

/// The books after one transaction: the new books if it was accepted, the same ones if not.
pub open spec fn after(l: Map<u32, LedgerEntry>, a: Map<u16, Account>, r: TxRecord) -> Books {
    match step(l, a, r) {
        Ok(b) => b,
        Err(_) => (l, a),
    }
}

/// The books after a sequence of transactions, applied in order.
pub open spec fn run(l: Map<u32, LedgerEntry>, a: Map<u16, Account>, rs: Seq<TxRecord>) -> Books
    decreases rs.len(),
{
    if rs.len() == 0 {
        (l, a)
    } else {
        let b = run(l, a, rs.drop_last());
        after(b.0, b.1, rs.last())
    }
}

/// The result `r` and the books before (`l0`, `a0`) and after (`l1`, `a1`)
/// agree with the expected outcome: on acceptance the books are the new ones,
/// on rejection the same reason is returned and nothing changed.
pub open spec fn applied(
    r: Result<(), Rejection>,
    expected: Result<Books, Rejection>,
    l0: Map<u32, LedgerEntry>,
    a0: Map<u16, Account>,
    l1: Map<u32, LedgerEntry>,
    a1: Map<u16, Account>,
) -> bool {
    match expected {
        Ok(b) => r is Ok && l1 == b.0 && a1 == b.1,
        Err(e) => r == Err::<(), Rejection>(e) && l1 == l0 && a1 == a0,
    }
}

/// Deposits `rec.amount` into the client's account, opening the account on
/// the client's first deposit, and records the transaction.
pub fn try_deposit(ledger: &mut LedgerStore, accounts: &mut AccountStore, rec: TxRecord) -> (r: Result<(), Rejection>)
    requires
        old(accounts).wf(),
    ensures
        final(accounts).wf(),
        applied(r, deposit_step(old(ledger)@, old(accounts)@, rec.client, rec.tx, rec.amount),
            old(ledger)@, old(accounts)@, final(ledger)@, final(accounts)@),
{
    if ledger.contains(rec.tx) {
        return Err(Rejection::DuplicateId);
    }
    let x = match rec.amount {
        Some(x) => x,
        None => return Err(Rejection::MissingAmount),
    };
    if x <= 0 {
        return Err(Rejection::NonPositiveAmount);
    }
    let (available, total) = match accounts.lookup(rec.client) {
        Some(acc) => {
            if acc.lock_count > 0 {
                return Err(Rejection::Frozen);
            }
            let available = match acc.available.checked_add(x) {
                Some(v) => v,
                None => return Err(Rejection::Overflow),
            };
            let total = match acc.total.checked_add(x) {
                Some(v) => v,
                None => return Err(Rejection::Overflow),
            };
            (available, total)
        },
        None => (x, x),
    };
    let acc = accounts.create_or_get_for_deposit(rec.client);
    let ghost created = accounts@;
    accounts.update(rec.client, Account { available, held: acc.held, total, lock_count: acc.lock_count });
    ledger.record(rec.tx, LedgerEntry::accepted(rec.client, x));
    proof {
        if !old(accounts)@.contains_key(rec.client) {
            assert(accounts@ =~= old(accounts)@.insert(rec.client, Account { available, held: 0, total, lock_count: 0 }));
        }
    }
    Ok(())
}

/// Withdraws `rec.amount` from the client's account and records the transaction.
pub fn try_withdrawal(ledger: &mut LedgerStore, accounts: &mut AccountStore, rec: TxRecord) -> (r: Result<(), Rejection>)
    requires
        old(accounts).wf(),
    ensures
        final(accounts).wf(),
        applied(r, withdrawal_step(old(ledger)@, old(accounts)@, rec.client, rec.tx, rec.amount),
            old(ledger)@, old(accounts)@, final(ledger)@, final(accounts)@),
{
    if ledger.contains(rec.tx) {
        return Err(Rejection::DuplicateId);
    }
    let x = match rec.amount {
        Some(x) => x,
        None => return Err(Rejection::MissingAmount),
    };
    if x <= 0 {
        return Err(Rejection::NonPositiveAmount);
    }
    let acc = match accounts.lookup(rec.client) {
        Some(acc) => acc,
        None => return Err(Rejection::UnknownClient),
    };
    if acc.lock_count > 0 {
        return Err(Rejection::Frozen);
    }
    if acc.available < 0 {
        return Err(Rejection::NegativeBalance);
    }
    if acc.available < x {
        return Err(Rejection::InsufficientFunds);
    }
    let total = match acc.total.checked_sub(x) {
        Some(v) => v,
        None => return Err(Rejection::Overflow),
    };
    accounts.update(rec.client, Account { available: acc.available - x, held: acc.held, total, lock_count: acc.lock_count });
    ledger.record(rec.tx, LedgerEntry::accepted(rec.client, x));
    Ok(())
}

/// Files a dispute against transaction `rec.tx`: its amount moves from
/// available to held and the account gains one lock.
pub fn try_dispute(ledger: &mut LedgerStore, accounts: &mut AccountStore, rec: TxRecord) -> (r: Result<(), Rejection>)
    requires
        old(accounts).wf(),
    ensures
        final(accounts).wf(),
        applied(r, dispute_step(old(ledger)@, old(accounts)@, rec.client, rec.tx),
            old(ledger)@, old(accounts)@, final(ledger)@, final(accounts)@),
{
    let e = match ledger.lookup(rec.tx) {
        Some(e) => e,
        None => return Err(Rejection::UnknownTransaction),
    };
    if e.disputed {
        return Err(Rejection::AlreadyDisputed);
    }
    if e.client != rec.client {
        return Err(Rejection::ClientMismatch);
    }
    let acc = match accounts.lookup(rec.client) {
        Some(acc) => acc,
        None => return Err(Rejection::UnknownClient),
    };
    let available = match acc.available.checked_sub(e.amount) {
        Some(v) => v,
        None => return Err(Rejection::Overflow),
    };
    let held = match acc.held.checked_add(e.amount) {
        Some(v) => v,
        None => return Err(Rejection::Overflow),
    };
    let lock_count = acc.lock_count.saturating_add(1);
    ledger.update(rec.tx, LedgerEntry { disputed: true, ..e });
    accounts.update(rec.client, Account { available, held, total: acc.total, lock_count });
    Ok(())
}

/// Resolves the dispute against transaction `rec.tx`: its amount returns
/// from held to available and the account loses one lock.
pub fn try_resolve(ledger: &mut LedgerStore, accounts: &mut AccountStore, rec: TxRecord) -> (r: Result<(), Rejection>)
    requires
        old(accounts).wf(),
    ensures
        final(accounts).wf(),
        applied(r, resolve_step(old(ledger)@, old(accounts)@, rec.client, rec.tx),
            old(ledger)@, old(accounts)@, final(ledger)@, final(accounts)@),
{
    let e = match ledger.lookup(rec.tx) {
        Some(e) => e,
        None => return Err(Rejection::UnknownTransaction),
    };
    if !e.disputed {
        return Err(Rejection::NotDisputed);
    }
    if e.charged_back {
        return Err(Rejection::ChargedBack);
    }
    if e.client != rec.client {
        return Err(Rejection::ClientMismatch);
    }
    let acc = match accounts.lookup(rec.client) {
        Some(acc) => acc,
        None => return Err(Rejection::UnknownClient),
    };
    let available = match acc.available.checked_add(e.amount) {
        Some(v) => v,
        None => return Err(Rejection::Overflow),
    };
    let held = match acc.held.checked_sub(e.amount) {
        Some(v) => v,
        None => return Err(Rejection::Overflow),
    };
    let lock_count = acc.lock_count.saturating_sub(1);
    ledger.update(rec.tx, LedgerEntry { disputed: false, ..e });
    accounts.update(rec.client, Account { available, held, total: acc.total, lock_count });
    Ok(())
}

/// Charges back the disputed transaction `rec.tx`: its amount leaves held and
/// total for good. The dispute stays open, so the account stays frozen.
pub fn try_chargeback(ledger: &mut LedgerStore, accounts: &mut AccountStore, rec: TxRecord) -> (r: Result<(), Rejection>)
    requires
        old(accounts).wf(),
    ensures
        final(accounts).wf(),
        applied(r, chargeback_step(old(ledger)@, old(accounts)@, rec.client, rec.tx),
            old(ledger)@, old(accounts)@, final(ledger)@, final(accounts)@),
{
    let e = match ledger.lookup(rec.tx) {
        Some(e) => e,
        None => return Err(Rejection::UnknownTransaction),
    };
    if !e.disputed {
        return Err(Rejection::NotDisputed);
    }
    if e.charged_back {
        return Err(Rejection::ChargedBack);
    }
    if e.client != rec.client {
        return Err(Rejection::ClientMismatch);
    }
    let acc = match accounts.lookup(rec.client) {
        Some(acc) => acc,
        None => return Err(Rejection::UnknownClient),
    };
    let held = match acc.held.checked_sub(e.amount) {
        Some(v) => v,
        None => return Err(Rejection::Overflow),
    };
    let total = match acc.total.checked_sub(e.amount) {
        Some(v) => v,
        None => return Err(Rejection::Overflow),
    };
    ledger.update(rec.tx, LedgerEntry { charged_back: true, ..e });
    accounts.update(rec.client, Account { available: acc.available, held, total, lock_count: acc.lock_count });
    Ok(())
}

/// Applies one transaction to the books, dispatching on its kind.
pub fn process(ledger: &mut LedgerStore, accounts: &mut AccountStore, rec: TxRecord) -> (r: Result<(), Rejection>)
    requires
        old(accounts).wf(),
    ensures
        final(accounts).wf(),
        applied(r, step(old(ledger)@, old(accounts)@, rec), old(ledger)@, old(accounts)@, final(ledger)@, final(accounts)@),
        consistent(old(ledger)@, old(accounts)@) ==> consistent(final(ledger)@, final(accounts)@),
{
    proof {
        if consistent(ledger@, accounts@) {
            lemma_step_keeps_consistent(ledger@, accounts@, rec);
        }
    }
    match rec.kind {
        TxKind::Deposit => try_deposit(ledger, accounts, rec),
        TxKind::Withdrawal => try_withdrawal(ledger, accounts, rec),
        TxKind::Dispute => try_dispute(ledger, accounts, rec),
        TxKind::Resolve => try_resolve(ledger, accounts, rec),
        TxKind::Chargeback => try_chargeback(ledger, accounts, rec),
    }
}

/// Applies a whole feed of transactions in order; rejected ones are skipped.
pub fn process_all(ledger: &mut LedgerStore, accounts: &mut AccountStore, recs: &Vec<TxRecord>)
    requires
        old(accounts).wf(),
    ensures
        final(accounts).wf(),
        (final(ledger)@, final(accounts)@) == run(old(ledger)@, old(accounts)@, recs@),
        consistent(old(ledger)@, old(accounts)@) ==> consistent(final(ledger)@, final(accounts)@),
{
    let mut i: usize = 0;
    while i < recs.len()
        invariant
            accounts.wf(),
            i <= recs@.len(),
            (ledger@, accounts@) == run(old(ledger)@, old(accounts)@, recs@.take(i as int)),
        decreases recs@.len() - i,
    {
        let _ = process(ledger, accounts, recs[i]);
        proof {
            assert(recs@.take(i + 1).drop_last() =~= recs@.take(i as int));
        }
        i = i + 1;
    }
    proof {
        assert(recs@.take(recs@.len() as int) =~= recs@);
        if consistent(old(ledger)@, old(accounts)@) {
            lemma_run_keeps_consistent(old(ledger)@, old(accounts)@, recs@);
        }
    }
}

} // verus!
