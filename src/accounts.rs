use std::collections::HashMap;
use vstd::prelude::*;

verus! {

broadcast use vstd::std_specs::hash::group_hash_axioms;

/// Balance record of one client, amounts in fixed-point units.
#[derive(Clone, Copy, Debug, PartialEq, Eq)]
pub struct Account {
    /// Funds usable for withdrawal; may go negative after a withdrawal is disputed.
    pub available: i64,
    /// Funds frozen pending dispute resolution.
    pub held: i64,
    /// All funds associated with the client.
    pub total: i64,
    /// Number of currently open disputes; the account is frozen while it is non-zero.
    pub lock_count: u64,
}

impl Account {
    /// `total` is the sum of `available` and `held`.
    pub open spec fn is_balanced(self) -> bool {
        self.total == self.available + self.held
    }

    /// A brand-new account with nothing in it.
    pub fn zeroed() -> (a: Account)
        ensures
            a == (Account { available: 0, held: 0, total: 0, lock_count: 0 }),
    {
        Account { available: 0, held: 0, total: 0, lock_count: 0 }
    }

    /// Whether the account is frozen (it has open disputes).
    pub fn locked(&self) -> (r: bool)
        ensures
            r == (self.lock_count > 0),
    {
        self.lock_count > 0
    }
}

/// One balance record per client id, remembering the order in which clients appeared.
pub struct AccountStore {
    accounts: HashMap<u16, Account>,
    order: Vec<u16>,
}

impl View for AccountStore {
    type V = Map<u16, Account>;

    closed spec fn view(&self) -> Map<u16, Account> {
        self.accounts@
    }
}

impl AccountStore {
    /// The list of client ids holds each client of the map exactly once.
    pub closed spec fn wf(&self) -> bool {
        &&& self.order@.no_duplicates()
        &&& forall|i: int| 0 <= i < self.order@.len() ==> self.accounts@.contains_key(#[trigger] self.order@[i])
        &&& forall|c: u16| self.accounts@.contains_key(c) ==> self.order@.contains(c)
    }

    /// A store with no accounts.
    pub fn new() -> (s: AccountStore)
        ensures
            s.wf(),
            s@ == Map::<u16, Account>::empty(),
    {
        AccountStore { accounts: HashMap::new(), order: Vec::new() }
    }

    /// The account of `client`, if it has one.
    pub fn lookup(&self, client: u16) -> (r: Option<Account>)
        ensures
            r == (if self@.contains_key(client) { Some(self@[client]) } else { None::<Account> }),
    {
        match self.accounts.get(&client) {
            Some(a) => Some(*a),
            None => None,
        }
    }

    /// Number of accounts.
    pub fn len(&self) -> (n: usize)
        requires
            self.wf(),
        ensures
            n == self@.len(),
    {
        proof {
            self.lemma_len();
        }
        self.order.len()
    }

    proof fn lemma_len(&self)
        requires
            self.wf(),
        ensures
            self.order@.len() == self@.len(),
    {
        let s = self.order@.to_set();
        self.order@.unique_seq_to_set();
        assert(s =~= self@.dom());
    }

    /// The existing account of `client`, or a zeroed one that is created for it.
    /// Only a deposit opens an account.
    pub fn create_or_get_for_deposit(&mut self, client: u16) -> (a: Account)
        requires
            old(self).wf(),
        ensures
            final(self).wf(),
            final(self)@ == (if old(self)@.contains_key(client) { old(self)@ } else {
                old(self)@.insert(client, Account { available: 0, held: 0, total: 0, lock_count: 0 })
            }),
            a == final(self)@[client],
    {
        match self.accounts.get(&client) {
            Some(a) => *a,
            None => {
                let z = Account::zeroed();
                self.accounts.insert(client, z);
                self.order.push(client);
                proof {
                    let o = old(self).order@;
                    assert(self.order@ == o.push(client));
                    assert(!o.contains(client));
                    assert forall|i: int, j: int|
                        0 <= i < self.order@.len() && 0 <= j < self.order@.len() && i != j implies
                        self.order@[i] != self.order@[j] by {
                        if i < o.len() && j < o.len() {
                        } else if i < o.len() {
                            assert(o.contains(o[i]));
                        } else {
                            assert(o.contains(o[j]));
                        }
                    }
                    assert forall|c: u16| self.accounts@.contains_key(c) implies self.order@.contains(c) by {
                        if c == client {
                            assert(self.order@[o.len() as int] == c);
                        } else {
                            assert(old(self).accounts@.contains_key(c));
                            assert(o.contains(c));
                            let k = choose|k: int| 0 <= k < o.len() && o[k] == c;
                            assert(self.order@[k] == c);
                        }
                    }
                }
                z
            },
        }
    }

    /// Replaces the account of a client that has one.
    pub fn update(&mut self, client: u16, account: Account)
        requires
            old(self).wf(),
            old(self)@.contains_key(client),
        ensures
            final(self).wf(),
            final(self)@ == old(self)@.insert(client, account),
    {
        self.accounts.insert(client, account);
    }

    /// Every client with its account, each client once, in the order the clients appeared.
    pub fn snapshot(&self) -> (r: Vec<(u16, Account)>)
        requires
            self.wf(),
        ensures
            r@.len() == self@.len(),
            forall|i: int| 0 <= i < r@.len() ==> self@.contains_key(#[trigger] r@[i].0) && self@[r@[i].0] == r@[i].1,
            forall|i: int, j: int| 0 <= i < j < r@.len() ==> r@[i].0 != r@[j].0,
            forall|c: u16| self@.contains_key(c) ==> exists|i: int| 0 <= i < r@.len() && #[trigger] r@[i].0 == c,
    {
        proof {
            self.lemma_len();
        }
        let mut r: Vec<(u16, Account)> = Vec::new();
        let mut i: usize = 0;
        while i < self.order.len()
            invariant
                self.wf(),
                i <= self.order@.len(),
                r@.len() == i,
                forall|k: int| 0 <= k < i ==> #[trigger] r@[k].0 == self.order@[k] && r@[k].1 == self@[self.order@[k]],
            decreases self.order@.len() - i,
        {
            let c = self.order[i];
            let a = match self.accounts.get(&c) {
                Some(a) => *a,
                None => Account::zeroed(),
            };
            r.push((c, a));
            i = i + 1;
        }
        proof {
            assert forall|c: u16| self@.contains_key(c) implies exists|i: int| 0 <= i < r@.len() && #[trigger] r@[i].0 == c by {
                assert(self.order@.contains(c));
                let k = choose|k: int| 0 <= k < self.order@.len() && self.order@[k] == c;
                assert(r@[k].0 == c);
            }
            assert forall|i: int, j: int| 0 <= i < j < r@.len() implies r@[i].0 != r@[j].0 by {
                assert(r@[i].0 == self.order@[i]);
                assert(r@[j].0 == self.order@[j]);
            }
        }
        r
    }
}

} // verus!
