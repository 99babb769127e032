//! The ledger store: three hash maps and direct, logic-free access to them.
//!
//! `clients` holds per-client accounts; `transactions` the retained original
//! deposits and withdrawals; `disputes` the dispute lifecycle marker of each
//! disputed transaction. The two transaction maps are keyed by the packed
//! `(transaction, client)` pair. A vector of the client keys, kept in
//! insertion order, lets reporting walk the accounts deterministically.

use std::collections::HashMap;

use vstd::prelude::*;

use crate::amount::DISPLAY_DIGITS;
use crate::model::{
    account_bounded, account_inv, account_or_new, inv, key_of, rescaled_account, ClientView,
    StoreView, TransactionView,
};
use crate::transactions::{pack_key, Client, ClientID, Transaction, TxId};

verus! {

broadcast use {vstd::std_specs::hash::group_hash_axioms, vstd::seq_lib::group_seq_properties};

pub struct TransactionsInfo {
    transactions: HashMap<u64, Transaction>,
    clients: HashMap<u16, Client>,
    client_ids: Vec<u16>,
    disputes: HashMap<u64, Transaction>,
}

impl View for TransactionsInfo {
    type V = StoreView;

    closed spec fn view(&self) -> StoreView {
        StoreView {
            accounts: Map::new(
                |c: u16| self.clients@.contains_key(c),
                |c: u16| self.clients@[c]@,
            ),
            txs: Map::new(
                |k: u64| self.transactions@.contains_key(k),
                |k: u64| self.transactions@[k]@,
            ),
            disputes: Map::new(
                |k: u64| self.disputes@.contains_key(k),
                |k: u64| self.disputes@[k]@,
            ),
        }
    }
}

impl TransactionsInfo {
    /// The client-key vector lists exactly the keys of the account map, each
    /// once, so the accounts can be walked.
    pub closed spec fn wf(&self) -> bool {
        &&& self.client_ids@.no_duplicates()
        &&& forall|c: u16|
            self.clients@.contains_key(c) <==> #[trigger] self.client_ids@.contains(c)
    }

    pub fn new() -> (r: TransactionsInfo)
        ensures
            r.wf(),
            r@.accounts == Map::<u16, ClientView>::empty(),
            r@.txs == Map::<u64, TransactionView>::empty(),
            r@.disputes == Map::<u64, TransactionView>::empty(),
            inv(r@),
    {
        let r = TransactionsInfo {
            transactions: HashMap::new(),
            clients: HashMap::new(),
            client_ids: Vec::new(),
            disputes: HashMap::new(),
        };
        proof {
            assert(r@.accounts =~= Map::<u16, ClientView>::empty());
            assert(r@.txs =~= Map::<u64, TransactionView>::empty());
            assert(r@.disputes =~= Map::<u64, TransactionView>::empty());
        }
        r
    }

    /// The full account map, for reporting; iteration order is not
    /// significant.
    pub fn get_clients(&self) -> (r: &HashMap<u16, Client>)
        ensures
            forall|c: u16| #[trigger] r@.contains_key(c) <==> self@.accounts.contains_key(c),
            forall|c: u16| #[trigger] r@.contains_key(c) ==> r@[c]@ == self@.accounts[c],
    {
        &self.clients
    }

    pub fn get_client(&self, client_id: &ClientID) -> (r: Option<&Client>)
        ensures
            match r {
                Some(c) => self@.accounts.contains_key(client_id@) && c@
                    == self@.accounts[client_id@],
                None => !self@.accounts.contains_key(client_id@),
            },
    {
        self.clients.get(&client_id.raw())
    }

    /// The stored account for this client, created with zeroed balances if
    /// none exists yet.
    pub fn get_clients_entry(&mut self, client_id: ClientID) -> (c: Client)
        requires
            old(self).wf(),
        ensures
            final(self).wf(),
            final(self)@.accounts == old(self)@.accounts.insert(
                client_id@,
                account_or_new(old(self)@, client_id),
            ),
            final(self)@.txs == old(self)@.txs,
            final(self)@.disputes == old(self)@.disputes,
            c@ == account_or_new(old(self)@, client_id),
    {
        let key = client_id.raw();
        if self.clients.contains_key(&key) {
            let c = *self.clients.get(&key).unwrap();
            proof {
                assert(self@.accounts =~= self@.accounts.insert(
                    client_id@,
                    account_or_new(self@, client_id),
                ));
            }
            c
        } else {
            let c = Client::empty(client_id);
            self.clients.insert(key, c);
            self.client_ids.push(key);
            proof {
                let ids0 = old(self).client_ids@;
                let ids1 = self.client_ids@;
                assert(ids1 == ids0.push(key));
                assert(!ids0.contains(key));
                assert(ids1.no_duplicates()) by {
                    assert forall|i: int, j: int|
                        0 <= i < ids1.len() && 0 <= j < ids1.len() && i != j implies ids1[i]
                        != ids1[j] by {
                        if i < ids0.len() && j < ids0.len() {
                        } else if i == ids0.len() as int {
                            assert(ids0.contains(ids0[j]));
                        } else {
                            assert(ids0.contains(ids0[i]));
                        }
                    }
                }
                assert forall|c2: u16|
                    self.clients@.contains_key(c2) <==> #[trigger] ids1.contains(c2) by {
                    if c2 == key {
                        assert(ids1[ids0.len() as int] == key);
                        assert(ids1.contains(key));
                    } else {
                        if ids0.contains(c2) {
                            let i = choose|i: int| 0 <= i < ids0.len() && ids0[i] == c2;
                            assert(ids1[i] == c2);
                            assert(ids1.contains(c2));
                        }
                        if ids1.contains(c2) {
                            let i = choose|i: int| 0 <= i < ids1.len() && ids1[i] == c2;
                            assert(i < ids0.len());
                            assert(ids0[i] == c2);
                            assert(ids0.contains(c2));
                        }
                    }
                }
                assert(self@.accounts =~= old(self)@.accounts.insert(
                    client_id@,
                    account_or_new(old(self)@, client_id),
                ));
                assert(self@.txs =~= old(self)@.txs);
                assert(self@.disputes =~= old(self)@.disputes);
            }
            c
        }
    }

    /// Stores an account under its own client identifier, which must already
    /// be present (accounts are created by `get_clients_entry`).
    pub(crate) fn set_client(&mut self, c: Client)
        requires
            old(self).wf(),
            old(self)@.accounts.contains_key(c.client@),
        ensures
            final(self).wf(),
            final(self)@.accounts == old(self)@.accounts.insert(c.client@, c@),
            final(self)@.txs == old(self)@.txs,
            final(self)@.disputes == old(self)@.disputes,
    {
        let key = c.client.raw();
        self.clients.insert(key, c);
        proof {
            assert(self@.accounts =~= old(self)@.accounts.insert(c.client@, c@));
            assert(self@.txs =~= old(self)@.txs);
            assert(self@.disputes =~= old(self)@.disputes);
        }
    }

    /// Rounds every stored balance to `scale` fractional digits, half away
    /// from zero, in place, for reporting.
    pub fn rescale_clients(&mut self, scale: u32)
        requires
            old(self).wf(),
            forall|c: u16| #[trigger]
                old(self)@.accounts.contains_key(c) ==> account_bounded(old(self)@.accounts[c]),
        ensures
            final(self).wf(),
            final(self)@.txs == old(self)@.txs,
            final(self)@.disputes == old(self)@.disputes,
            forall|c: u16| #[trigger]
                final(self)@.accounts.contains_key(c) <==> old(self)@.accounts.contains_key(c),
            forall|c: u16| #[trigger]
                final(self)@.accounts.contains_key(c) ==> final(self)@.accounts[c]
                    == rescaled_account(old(self)@.accounts[c], scale as nat),
    {
        let n = self.client_ids.len();
        let mut i: usize = 0;
        while i < n
            invariant
                self.wf(),
                i <= n,
                n == self.client_ids@.len(),
                self.client_ids@ == old(self).client_ids@,
                self@.txs == old(self)@.txs,
                self@.disputes == old(self)@.disputes,
                forall|c: u16| #[trigger]
                    old(self)@.accounts.contains_key(c) ==> account_bounded(
                        old(self)@.accounts[c],
                    ),
                forall|c: u16| #[trigger]
                    self@.accounts.contains_key(c) <==> old(self)@.accounts.contains_key(c),
                forall|j: int|
                    0 <= j < i ==> #[trigger] self@.accounts[self.client_ids@[j]]
                        == rescaled_account(
                        old(self)@.accounts[self.client_ids@[j]],
                        scale as nat,
                    ),
                forall|j: int|
                    i <= j < n ==> #[trigger] self@.accounts[self.client_ids@[j]]
                        == old(self)@.accounts[self.client_ids@[j]],
            decreases n - i,
        {
            let ghost pre = self@.accounts;
            let key = self.client_ids[i];
            proof {
                assert(self.client_ids@.contains(key));
                assert(self@.accounts.contains_key(key));
                assert(old(self)@.accounts.contains_key(key));
                assert(self@.accounts[key] == old(self)@.accounts[key]);
                assert(account_bounded(old(self)@.accounts[key]));
            }
            let mut c = *self.clients.get(&key).unwrap();
            proof {
                assert(c@ == self@.accounts[key]);
            }
            c.rescale(scale);
            self.clients.insert(key, c);
            proof {
                assert(self@.accounts =~= pre.insert(key, c@));
                assert forall|j: int| 0 <= j < i + 1 implies #[trigger] self@.accounts[self.client_ids@[j]]
                    == rescaled_account(
                    old(self)@.accounts[self.client_ids@[j]],
                    scale as nat,
                ) by {
                    if j < i {
                        assert(self.client_ids@[j] != key);
                    }
                }
                assert forall|j: int| i + 1 <= j < n implies #[trigger] self@.accounts[self.client_ids@[j]]
                    == old(self)@.accounts[self.client_ids@[j]] by {
                    assert(self.client_ids@[j] != key);
                }
            }
            i = i + 1;
        }
        proof {
            assert forall|c: u16| #[trigger]
                self@.accounts.contains_key(c) implies self@.accounts[c] == rescaled_account(
                old(self)@.accounts[c],
                scale as nat,
            ) by {
                assert(self.client_ids@.contains(c));
                let j = choose|j: int|
                    0 <= j < self.client_ids@.len() && self.client_ids@[j] == c;
                assert(self@.accounts[self.client_ids@[j]] == rescaled_account(
                    old(self)@.accounts[self.client_ids@[j]],
                    scale as nat,
                ));
            }
        }
    }

    /// The final balance report: one entry per account, each balance rounded
    /// to the display precision, without touching the stored state.
    pub fn snapshot(&self) -> (r: Vec<Client>)
        requires
            self.wf(),
            inv(self@),
        ensures
            forall|i: int|
                0 <= i < r@.len() ==> self@.accounts.contains_key(#[trigger] r@[i]@.client)
                    && r@[i]@ == rescaled_account(
                    self@.accounts[r@[i]@.client],
                    DISPLAY_DIGITS as nat,
                ),
            forall|c: u16| #[trigger]
                self@.accounts.contains_key(c) ==> exists|i: int|
                    0 <= i < r@.len() && #[trigger] r@[i]@.client == c,
            forall|i: int, j: int| 0 <= i < j < r@.len() ==> r@[i]@.client != r@[j]@.client,
    {
        let mut r: Vec<Client> = Vec::new();
        let n = self.client_ids.len();
        let mut i: usize = 0;
        while i < n
            invariant
                self.wf(),
                inv(self@),
                i <= n,
                n == self.client_ids@.len(),
                r@.len() == i,
                forall|j: int|
                    0 <= j < i ==> #[trigger] r@[j]@.client == self.client_ids@[j] && r@[j]@
                        == rescaled_account(
                        self@.accounts[self.client_ids@[j]],
                        DISPLAY_DIGITS as nat,
                    ),
            decreases n - i,
        {
            let key = self.client_ids[i];
            proof {
                assert(self.client_ids@.contains(key));
                assert(self@.accounts.contains_key(key));
                assert(account_inv(self@.accounts[key], key));
            }
            let mut c = *self.clients.get(&key).unwrap();
            proof {
                assert(c@ == self@.accounts[key]);
            }
            c.rescale(DISPLAY_DIGITS);
            r.push(c);
            i = i + 1;
        }
        proof {
            assert forall|i: int|
                0 <= i < r@.len() implies self@.accounts.contains_key(#[trigger] r@[i]@.client)
                && r@[i]@ == rescaled_account(
                self@.accounts[r@[i]@.client],
                DISPLAY_DIGITS as nat,
            ) by {
                assert(r@[i]@.client == self.client_ids@[i]);
                assert(self.client_ids@.contains(self.client_ids@[i]));
            }
            assert forall|c: u16| #[trigger]
                self@.accounts.contains_key(c) implies exists|i: int|
                0 <= i < r@.len() && #[trigger] r@[i]@.client == c by {
                assert(self.client_ids@.contains(c));
                let j = choose|j: int|
                    0 <= j < self.client_ids@.len() && self.client_ids@[j] == c;
                assert(r@[j]@.client == c);
            }
        }
        r
    }

    pub fn transactions_contains_key(&self, k: &(TxId, ClientID)) -> (r: bool)
        ensures
            r == self@.txs.contains_key(key_of(k.0, k.1)),
    {
        let key = pack_key(&k.0, &k.1);
        self.transactions.contains_key(&key)
    }

    pub fn get_transaction(&self, k: &(TxId, ClientID)) -> (r: Option<Transaction>)
        ensures
            match r {
                Some(t) => self@.txs.contains_key(key_of(k.0, k.1)) && t@ == self@.txs[key_of(
                    k.0,
                    k.1,
                )],
                None => !self@.txs.contains_key(key_of(k.0, k.1)),
            },
    {
        let key = pack_key(&k.0, &k.1);
        match self.transactions.get(&key) {
            Some(t) => Some(*t),
            None => None,
        }
    }

    pub fn insert_transaction(&mut self, k: (TxId, ClientID), v: Transaction)
        requires
            old(self).wf(),
        ensures
            final(self).wf(),
            final(self)@.txs == old(self)@.txs.insert(key_of(k.0, k.1), v@),
            final(self)@.accounts == old(self)@.accounts,
            final(self)@.disputes == old(self)@.disputes,
    {
        let key = pack_key(&k.0, &k.1);
        self.transactions.insert(key, v);
        proof {
            assert(self@.txs =~= old(self)@.txs.insert(key_of(k.0, k.1), v@));
            assert(self@.accounts =~= old(self)@.accounts);
            assert(self@.disputes =~= old(self)@.disputes);
        }
    }

    /// The full dispute map, for inspection.
    pub fn get_disputes(&self) -> (r: &HashMap<u64, Transaction>)
        ensures
            forall|k: u64| #[trigger] r@.contains_key(k) <==> self@.disputes.contains_key(k),
            forall|k: u64| #[trigger] r@.contains_key(k) ==> r@[k]@ == self@.disputes[k],
    {
        &self.disputes
    }

    pub fn disputes_contains_key(&self, k: &(TxId, ClientID)) -> (r: bool)
        ensures
            r == self@.disputes.contains_key(key_of(k.0, k.1)),
    {
        let key = pack_key(&k.0, &k.1);
        self.disputes.contains_key(&key)
    }

    pub fn get_dispute(&self, k: &(TxId, ClientID)) -> (r: Option<&Transaction>)
        ensures
            match r {
                Some(t) => self@.disputes.contains_key(key_of(k.0, k.1)) && t@
                    == self@.disputes[key_of(k.0, k.1)],
                None => !self@.disputes.contains_key(key_of(k.0, k.1)),
            },
    {
        let key = pack_key(&k.0, &k.1);
        self.disputes.get(&key)
    }

    pub fn insert_dispute(&mut self, k: (TxId, ClientID), v: Transaction)
        requires
            old(self).wf(),
        ensures
            final(self).wf(),
            final(self)@.disputes == old(self)@.disputes.insert(key_of(k.0, k.1), v@),
            final(self)@.accounts == old(self)@.accounts,
            final(self)@.txs == old(self)@.txs,
    {
        let key = pack_key(&k.0, &k.1);
        self.disputes.insert(key, v);
        proof {
            assert(self@.disputes =~= old(self)@.disputes.insert(key_of(k.0, k.1), v@));
            assert(self@.accounts =~= old(self)@.accounts);
            assert(self@.txs =~= old(self)@.txs);
        }
    }
}

} // verus!
