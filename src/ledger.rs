use std::collections::HashMap;
use vstd::prelude::*;

verus! {

broadcast use vstd::std_specs::hash::group_hash_axioms;

/// A deposit or withdrawal that was accepted into the history.
///
/// The amount is in fixed-point units (see `crate::amount`). Once accepted,
/// only the dispute flags of an entry ever change.
#[derive(Clone, Copy, Debug, PartialEq, Eq)]
pub struct LedgerEntry {
    pub client: u16,
    pub amount: i64,
    /// An open dispute is filed against this entry.
    pub disputed: bool,
    /// A chargeback finalised the dispute; no further dispute action can act on it.
    pub charged_back: bool,
}

impl LedgerEntry {
    /// A freshly accepted entry, with no dispute against it.
    pub fn accepted(client: u16, amount: i64) -> (e: LedgerEntry)
        ensures
            e == (LedgerEntry { client, amount, disputed: false, charged_back: false }),
    {
        LedgerEntry { client, amount, disputed: false, charged_back: false }
    }
}

/// The append-only history of accepted transactions, keyed by transaction id.
pub struct LedgerStore {
    entries: HashMap<u32, LedgerEntry>,
}

impl View for LedgerStore {
    type V = Map<u32, LedgerEntry>;

    closed spec fn view(&self) -> Map<u32, LedgerEntry> {
        self.entries@
    }
}

impl LedgerStore {
    /// An empty history.
    pub fn new() -> (s: LedgerStore)
        ensures
            s@ == Map::<u32, LedgerEntry>::empty(),
    {
        LedgerStore { entries: HashMap::new() }
    }

    /// Whether a transaction with this id was accepted.
    pub fn contains(&self, id: u32) -> (r: bool)
        ensures
            r == self@.contains_key(id),
    {
        self.entries.contains_key(&id)
    }

    /// The entry recorded under `id`, if any.
    pub fn lookup(&self, id: u32) -> (r: Option<LedgerEntry>)
        ensures
            r == (if self@.contains_key(id) { Some(self@[id]) } else { None::<LedgerEntry> }),
    {
        match self.entries.get(&id) {
            Some(e) => Some(*e),
            None => None,
        }
    }

    /// Number of accepted transactions.
    pub fn len(&self) -> (n: usize)
        ensures
            n == self@.len(),
    {
        self.entries.len()
    }

    /// Appends a new entry; the id must not be in the history yet.
    pub fn record(&mut self, id: u32, entry: LedgerEntry)
        requires
            !old(self)@.contains_key(id),
        ensures
            final(self)@ == old(self)@.insert(id, entry),
    {
        self.entries.insert(id, entry);
    }

    /// Replaces the entry of an id already in the history (its dispute flags change).
    pub fn update(&mut self, id: u32, entry: LedgerEntry)
        requires
            old(self)@.contains_key(id),
        ensures
            final(self)@ == old(self)@.insert(id, entry),
    {
        self.entries.insert(id, entry);
    }
}

} // verus!
