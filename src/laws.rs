use crate::accounts::Account;
use crate::ledger::LedgerEntry;
use crate::processor::{after, run, step, Rejection, TxKind, TxRecord};
use vstd::prelude::*;
use vstd::set_lib::{lemma_int_range, lemma_len_subset, lemma_map_size, set_int_range};

verus! {

broadcast use vstd::set::group_set_axioms;

/// Ids of the transactions of `client` that have an open dispute against them.
pub open spec fn disputed_ids(l: Map<u32, LedgerEntry>, client: u16) -> Set<u32> {
    l.dom().filter(|id: u32| l[id].client == client && l[id].disputed)
}

/// What holds of the books after any sequence of transactions from empty books:
/// every account is balanced (`total == available + held`), its lock count is
/// the number of its open disputes, every recorded transaction belongs to a
/// client with an account, and a charged-back transaction stays disputed.
pub open spec fn consistent(l: Map<u32, LedgerEntry>, a: Map<u16, Account>) -> bool {
    &&& l.dom().finite()
    &&& forall|id: u32| l.contains_key(id) ==> a.contains_key(#[trigger] l[id].client)
    &&& forall|id: u32| l.contains_key(id) && (#[trigger] l[id]).charged_back ==> l[id].disputed
    &&& forall|c: u16| a.contains_key(c) ==> (#[trigger] a[c]).is_balanced()
    &&& forall|c: u16| a.contains_key(c) ==> (#[trigger] a[c]).lock_count == disputed_ids(l, c).len()
}

/// A finite set of `u32` values has at most 2^32 elements.
proof fn lemma_u32_set_len(s: Set<u32>)
    requires
        s.finite(),
    ensures
        s.len() <= 0x1_0000_0000,
{
    let f = |x: u32| x as int;
    let y = s.map(f);
    assert(vstd::relations::injective_on(f, s));
    lemma_map_size(s, y, f);
    lemma_int_range(0, 0x1_0000_0000);
    assert(y.subset_of(set_int_range(0, 0x1_0000_0000)));
    lemma_len_subset(y, set_int_range(0, 0x1_0000_0000));
}

proof fn lemma_disputed_ids_finite(l: Map<u32, LedgerEntry>, client: u16)
    requires
        l.dom().finite(),
    ensures
        disputed_ids(l, client).finite(),
        disputed_ids(l, client).len() <= 0x1_0000_0000,
{
    l.dom().lemma_len_filter(|id: u32| l[id].client == client && l[id].disputed);
    lemma_u32_set_len(disputed_ids(l, client));
}

/// Empty books are consistent.
pub proof fn lemma_empty_consistent()
    ensures
        consistent(Map::<u32, LedgerEntry>::empty(), Map::<u16, Account>::empty()),
{
}

/// Every transaction keeps the books consistent; in particular every account
/// stays balanced after every processed transaction, accepted or not.
pub proof fn lemma_step_keeps_consistent(l: Map<u32, LedgerEntry>, a: Map<u16, Account>, r: TxRecord)
    requires
        consistent(l, a),
    ensures
        consistent(after(l, a, r).0, after(l, a, r).1),
{
    match step(l, a, r) {
        Err(_) => {},
        Ok(b) => {
            let (l1, a1) = b;
            let id = r.tx;
            let c = r.client;
            assert(l1.dom().finite()) by {
                assert(l1.dom() =~= l.dom().insert(id));
            }
            match r.kind {
                TxKind::Deposit | TxKind::Withdrawal => {
                    assert forall|k: u16| #[trigger] a1.contains_key(k) implies a1[k].lock_count == disputed_ids(l1, k).len() by {
                        assert(disputed_ids(l1, k) =~= disputed_ids(l, k));
                        if !a.contains_key(k) {
                            assert(disputed_ids(l, k) =~= Set::<u32>::empty());
                        }
                    }
                },
                TxKind::Dispute => {
                    lemma_disputed_ids_finite(l, c);
                    assert forall|k: u16| #[trigger] a1.contains_key(k) implies a1[k].lock_count == disputed_ids(l1, k).len() by {
                        if k == c {
                            assert(disputed_ids(l1, k) =~= disputed_ids(l, k).insert(id));
                            assert(!disputed_ids(l, k).contains(id));
                        } else {
                            assert(disputed_ids(l1, k) =~= disputed_ids(l, k));
                        }
                    }
                },
                TxKind::Resolve => {
                    lemma_disputed_ids_finite(l, c);
                    assert forall|k: u16| #[trigger] a1.contains_key(k) implies a1[k].lock_count == disputed_ids(l1, k).len() by {
                        if k == c {
                            assert(disputed_ids(l1, k) =~= disputed_ids(l, k).remove(id));
                            assert(disputed_ids(l, k).contains(id));
                        } else {
                            assert(disputed_ids(l1, k) =~= disputed_ids(l, k));
                        }
                    }
                },
                TxKind::Chargeback => {
                    assert forall|k: u16| #[trigger] a1.contains_key(k) implies a1[k].lock_count == disputed_ids(l1, k).len() by {
                        assert(disputed_ids(l1, k) =~= disputed_ids(l, k));
                    }
                },
            }
        },
    }
}

/// Consistency holds after any sequence of transactions.
pub proof fn lemma_run_keeps_consistent(l: Map<u32, LedgerEntry>, a: Map<u16, Account>, rs: Seq<TxRecord>)
    requires
        consistent(l, a),
    ensures
        consistent(run(l, a, rs).0, run(l, a, rs).1),
    decreases rs.len(),
{
    if rs.len() > 0 {
        lemma_run_keeps_consistent(l, a, rs.drop_last());
        let b = run(l, a, rs.drop_last());
        lemma_step_keeps_consistent(b.0, b.1, rs.last());
    }
}

/// The history only grows: an accepted id stays in the ledger through any
/// later sequence of transactions.
proof fn lemma_run_keeps_ids(l: Map<u32, LedgerEntry>, a: Map<u16, Account>, rs: Seq<TxRecord>, id: u32)
    requires
        l.contains_key(id),
    ensures
        run(l, a, rs).0.contains_key(id),
    decreases rs.len(),
{
    if rs.len() > 0 {
        lemma_run_keeps_ids(l, a, rs.drop_last(), id);
    }
}

/// Once a deposit or withdrawal with some id was accepted, every later
/// deposit or withdrawal with the same id is rejected as a duplicate,
/// whatever came in between.
pub proof fn lemma_duplicate_id_rejected(
    l: Map<u32, LedgerEntry>,
    a: Map<u16, Account>,
    first: TxRecord,
    between: Seq<TxRecord>,
    second: TxRecord,
)
    requires
        first.kind == TxKind::Deposit || first.kind == TxKind::Withdrawal,
        step(l, a, first) is Ok,
        second.kind == TxKind::Deposit || second.kind == TxKind::Withdrawal,
        second.tx == first.tx,
    ensures
        ({
            let b0 = after(l, a, first);
            let b = run(b0.0, b0.1, between);
            step(b.0, b.1, second) == Err::<crate::processor::Books, Rejection>(Rejection::DuplicateId)
        }),
{
    let b0 = after(l, a, first);
    lemma_run_keeps_ids(b0.0, b0.1, between, first.tx);
}

/// A dispute followed by a resolve of the same transaction restores the books
/// exactly: balances, lock count and the ledger entry are as before the dispute.
pub proof fn lemma_dispute_resolve_round_trip(
    l: Map<u32, LedgerEntry>,
    a: Map<u16, Account>,
    dispute: TxRecord,
    resolve: TxRecord,
)
    requires
        consistent(l, a),
        dispute.kind == TxKind::Dispute,
        resolve.kind == TxKind::Resolve,
        resolve.client == dispute.client,
        resolve.tx == dispute.tx,
        step(l, a, dispute) is Ok,
    ensures
        ({
            let b = after(l, a, dispute);
            step(b.0, b.1, resolve) == Ok::<crate::processor::Books, Rejection>((l, a))
        }),
{
    let c = dispute.client;
    let id = dispute.tx;
    lemma_disputed_ids_finite(l, c);
    assert(a[c].lock_count < u64::MAX);
    let b = after(l, a, dispute);
    let e = l[id];
    assert(b.0.insert(id, LedgerEntry { disputed: false, ..b.0[id] }) =~= l);
    let acc = a[c];
    let acc1 = b.1[c];
    assert(Account {
        available: (acc1.available + e.amount) as i64,
        held: (acc1.held - e.amount) as i64,
        total: acc1.total,
        lock_count: (acc1.lock_count - 1) as u64,
    } == acc);
    assert(b.1.insert(c, acc) =~= a);
}

/// A charged-back entry never changes again.
proof fn lemma_charged_back_kept(l: Map<u32, LedgerEntry>, a: Map<u16, Account>, rs: Seq<TxRecord>, id: u32)
    requires
        consistent(l, a),
        l.contains_key(id),
        l[id].charged_back,
    ensures
        run(l, a, rs).0.contains_key(id),
        run(l, a, rs).0[id] == l[id],
    decreases rs.len(),
{
    if rs.len() > 0 {
        lemma_charged_back_kept(l, a, rs.drop_last(), id);
        lemma_run_keeps_consistent(l, a, rs.drop_last());
    }
}

/// After a chargeback the client's account stays frozen for good: whatever
/// follows, its lock count stays positive and every later deposit or
/// withdrawal of that client is rejected.
pub proof fn lemma_chargeback_freezes_for_good(
    l: Map<u32, LedgerEntry>,
    a: Map<u16, Account>,
    chargeback: TxRecord,
    rest: Seq<TxRecord>,
    later: TxRecord,
)
    requires
        consistent(l, a),
        chargeback.kind == TxKind::Chargeback,
        step(l, a, chargeback) is Ok,
        later.kind == TxKind::Deposit || later.kind == TxKind::Withdrawal,
        later.client == chargeback.client,
    ensures
        ({
            let b0 = after(l, a, chargeback);
            let b = run(b0.0, b0.1, rest);
            &&& b.1.contains_key(chargeback.client)
            &&& b.1[chargeback.client].lock_count > 0
            &&& step(b.0, b.1, later) is Err
        }),
{
    let c = chargeback.client;
    let id = chargeback.tx;
    let b0 = after(l, a, chargeback);
    lemma_step_keeps_consistent(l, a, chargeback);
    lemma_charged_back_kept(b0.0, b0.1, rest, id);
    lemma_run_keeps_consistent(b0.0, b0.1, rest);
    let b = run(b0.0, b0.1, rest);
    lemma_disputed_ids_finite(b.0, c);
    assert(disputed_ids(b.0, c).contains(id));
    assert(b.1.contains_key(b.0[id].client));
}

/// A withdrawal of more than the available balance changes nothing.
pub proof fn lemma_overdraw_changes_nothing(l: Map<u32, LedgerEntry>, a: Map<u16, Account>, r: TxRecord)
    requires
        r.kind == TxKind::Withdrawal,
        a.contains_key(r.client),
        r.amount matches Some(x) && x > a[r.client].available,
    ensures
        step(l, a, r) is Err,
        after(l, a, r) == (l, a),
{
}

/// A transaction that names a client without an account (other than a
/// deposit, which opens one), or a dispute, resolve or chargeback that names
/// a transaction not in the history, changes nothing.
pub proof fn lemma_unknown_reference_changes_nothing(l: Map<u32, LedgerEntry>, a: Map<u16, Account>, r: TxRecord)
    requires
        consistent(l, a),
        (r.kind != TxKind::Deposit && !a.contains_key(r.client)) || ((r.kind == TxKind::Dispute
            || r.kind == TxKind::Resolve || r.kind == TxKind::Chargeback) && !l.contains_key(r.tx)),
    ensures
        step(l, a, r) is Err,
        after(l, a, r) == (l, a),
{
    if l.contains_key(r.tx) {
        assert(a.contains_key(l[r.tx].client));
    }
}

} // verus!
