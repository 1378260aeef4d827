use crate::amount::{amount_units, parse_amount};
use crate::processor::{TxKind, TxRecord};
use vstd::prelude::*;

verus! {

/// The lowercase word that names each kind in the feed.
pub open spec fn kind_word(k: TxKind) -> Seq<u8> {
    match k {
        TxKind::Deposit => seq![100u8, 101, 112, 111, 115, 105, 116],
        TxKind::Withdrawal => seq![119u8, 105, 116, 104, 100, 114, 97, 119, 97, 108],
        TxKind::Dispute => seq![100u8, 105, 115, 112, 117, 116, 101],
        TxKind::Resolve => seq![114u8, 101, 115, 111, 108, 118, 101],
        TxKind::Chargeback => seq![99u8, 104, 97, 114, 103, 101, 98, 97, 99, 107],
    }
}

/// The kind a word names, if any.
pub open spec fn kind_of(s: Seq<u8>) -> Option<TxKind> {
    if s == kind_word(TxKind::Deposit) {
        Some(TxKind::Deposit)
    } else if s == kind_word(TxKind::Withdrawal) {
        Some(TxKind::Withdrawal)
    } else if s == kind_word(TxKind::Dispute) {
        Some(TxKind::Dispute)
    } else if s == kind_word(TxKind::Resolve) {
        Some(TxKind::Resolve)
    } else if s == kind_word(TxKind::Chargeback) {
        Some(TxKind::Chargeback)
    } else {
        None
    }
}

/// A row that cannot be turned into a transaction at all; it ends the run.
#[derive(Clone, Copy, Debug, PartialEq, Eq)]
pub enum DecodeError {
    /// The amount field holds something other than a decimal that fits.
    MalformedAmount,
}

/// The amount field's value: `None` when the field is empty.
pub open spec fn amount_field(s: Seq<u8>) -> Result<Option<i64>, DecodeError> {
    if s.len() == 0 {
        Ok(None)
    } else {
        match amount_units(s) {
            Some(v) => if -i64::MAX <= v <= i64::MAX {
                Ok(Some(v as i64))
            } else {
                Err(DecodeError::MalformedAmount)
            },
            None => Err(DecodeError::MalformedAmount),
        }
    }
}

fn bytes_eq(a: &[u8], b: &[u8]) -> (r: bool)
    ensures
        r == (a@ == b@),
{
    if a.len() != b.len() {
        return false;
    }
    let mut i: usize = 0;
    while i < a.len()
        invariant
            a@.len() == b@.len(),
            i <= a@.len(),
            forall|k: int| 0 <= k < i ==> a@[k] == b@[k],
        decreases a@.len() - i,
    {
        if a[i] != b[i] {
            return false;
        }
        i = i + 1;
    }
    proof {
        assert(a@ =~= b@);
    }
    true
}

/// The kind named by a word of the feed; `None` for a word that names none.
pub fn parse_kind(s: &[u8]) -> (r: Option<TxKind>)
    ensures
        r == kind_of(s@),
{
    let deposit: [u8; 7] = [100, 101, 112, 111, 115, 105, 116];
    let withdrawal: [u8; 10] = [119, 105, 116, 104, 100, 114, 97, 119, 97, 108];
    let dispute: [u8; 7] = [100, 105, 115, 112, 117, 116, 101];
    let resolve: [u8; 7] = [114, 101, 115, 111, 108, 118, 101];
    let chargeback: [u8; 10] = [99, 104, 97, 114, 103, 101, 98, 97, 99, 107];
    proof {
        assert(deposit@ =~= kind_word(TxKind::Deposit));
        assert(withdrawal@ =~= kind_word(TxKind::Withdrawal));
        assert(dispute@ =~= kind_word(TxKind::Dispute));
        assert(resolve@ =~= kind_word(TxKind::Resolve));
        assert(chargeback@ =~= kind_word(TxKind::Chargeback));
    }
    if bytes_eq(s, deposit.as_slice()) {
        Some(TxKind::Deposit)
    } else if bytes_eq(s, withdrawal.as_slice()) {
        Some(TxKind::Withdrawal)
    } else if bytes_eq(s, dispute.as_slice()) {
        Some(TxKind::Dispute)
    } else if bytes_eq(s, resolve.as_slice()) {
        Some(TxKind::Resolve)
    } else if bytes_eq(s, chargeback.as_slice()) {
        Some(TxKind::Chargeback)
    } else {
        None
    }
}

/// Reads the amount field of a row (already trimmed); empty means absent.
pub fn parse_amount_field(s: &[u8]) -> (r: Result<Option<i64>, DecodeError>)
    ensures
        r == amount_field(s@),
{
    if s.len() == 0 {
        return Ok(None);
    }
    match parse_amount(s) {
        Some(v) => Ok(Some(v)),
        None => Err(DecodeError::MalformedAmount),
    }
}

/// Turns the fields of one row (`type`, `client`, `tx`, `amount`, each
/// trimmed) into a transaction. A malformed amount is an error whatever the
/// kind; a row whose type names no kind gives `Ok(None)` and is to be
/// skipped. The amount is kept for deposits and withdrawals only.
pub fn decode_row(kind: &[u8], client: u16, tx: u32, amount: &[u8]) -> (r: Result<Option<TxRecord>, DecodeError>)
    ensures
        r == (match amount_field(amount@) {
            Err(e) => Err(e),
            Ok(a) => match kind_of(kind@) {
                None => Ok(None),
                Some(k) => Ok(Some(TxRecord {
                    kind: k,
                    client,
                    tx,
                    amount: if k == TxKind::Deposit || k == TxKind::Withdrawal { a } else { None },
                })),
            },
        }),
{
    let a = match parse_amount_field(amount) {
        Ok(a) => a,
        Err(e) => return Err(e),
    };
    match parse_kind(kind) {
        None => Ok(None),
        Some(k) => {
            let amount = match k {
                TxKind::Deposit | TxKind::Withdrawal => a,
                _ => None,
            };
            Ok(Some(TxRecord { kind: k, client, tx, amount }))
        },
    }
}

} // verus!
