//! The payment engine: one client ledger per client id, created on first
//! sight, plus the order in which clients were first seen.

use vstd::prelude::*;
use vstd::hash_map::HashMapWithView;
use crate::account::Account;
use crate::client::{apply_spec, deposit_fits, Client, LedgerModel};
use crate::transaction::Transaction;

verus! {

broadcast use vstd::std_specs::hash::group_hash_axioms;

/// Main payment engine structure.
///
/// Allows processing transactions and querying client accounts. A ledger is
/// created for a client id the first time a transaction names it, whatever
/// the transaction's kind.
pub struct Engine {
    clients: HashMapWithView<u16, Client>,
    seen: Vec<u16>,
}

impl Engine {
    /// The ledger states, by client id.
    pub closed spec fn ledgers(self) -> Map<u16, Client> {
        self.clients@
    }

    /// The client ids that have been seen, in order of first sight.
    pub closed spec fn seen_clients(self) -> Seq<u16> {
        self.seen@
    }

    /// The ledger state a transaction for `client` would start from.
    pub open spec fn ledger_of(self, client: u16) -> LedgerModel {
        if self.ledgers().dom().contains(client) {
            self.ledgers()[client]@
        } else {
            LedgerModel::init()
        }
    }

    /// The engine invariant: every ledger satisfies the ledger invariant, and
    /// the seen list holds exactly the ledgers' client ids, once each.
    pub open spec fn wf(self) -> bool {
        &&& forall|c: u16| self.ledgers().dom().contains(c) ==> (#[trigger] self.ledgers()[c])@.wf()
        &&& forall|i: int|
            0 <= i < self.seen_clients().len() ==> self.ledgers().dom().contains(
                #[trigger] self.seen_clients()[i],
            )
        &&& forall|c: u16|
            self.ledgers().dom().contains(c) ==> #[trigger] self.seen_clients().contains(c)
        &&& forall|i: int, j: int|
            0 <= i < j < self.seen_clients().len() ==> #[trigger] self.seen_clients()[i]
                != #[trigger] self.seen_clients()[j]
    }
}

impl Default for Engine {
    /// A fresh engine: no client has been seen.
    fn default() -> (r: Self)
        ensures
            r.ledgers() == Map::<u16, Client>::empty(),
            r.seen_clients() == Seq::<u16>::empty(),
            r.wf(),
    {
        let r = Engine { clients: HashMapWithView::new(), seen: Vec::new() };
        proof {
            assert(r.seen_clients() =~= Seq::<u16>::empty());
        }
        r
    }
}

impl Engine {
    /// Process a transaction.
    ///
    /// It will route the transaction to the appropriate client based on the
    /// client ID in the transaction, creating that client's ledger on first
    /// sight.
    pub fn process_transaction(&mut self, tx: Transaction)
        requires
            old(self).wf(),
            tx.wf(),
            deposit_fits(old(self).ledger_of(tx.client), tx),
        ensures
            final(self).wf(),
            final(self).ledger_of(tx.client) == apply_spec(old(self).ledger_of(tx.client), tx),
            final(self).ledgers().dom() == old(self).ledgers().dom().insert(tx.client),
            forall|c: u16|
                c != tx.client && old(self).ledgers().dom().contains(c)
                    ==> #[trigger] final(self).ledgers()[c] == old(self).ledgers()[c],
            final(self).seen_clients() == if old(self).seen_clients().contains(tx.client) {
                old(self).seen_clients()
            } else {
                old(self).seen_clients().push(tx.client)
            },
    {
        let mut ledger: Client = match self.clients.remove(&tx.client) {
            Some(c) => c,
            None => {
                self.seen.push(tx.client);
                Client::default()
            },
        };

        ledger.process_transaction(tx);
        self.clients.insert(tx.client, ledger);

        proof {
            assert(self.ledgers().dom() =~= old(self).ledgers().dom().insert(tx.client));
            if !old(self).ledgers().dom().contains(tx.client) {
                // The seen list gained exactly the new id, at the end.
                let n = old(self).seen_clients().len() as int;
                assert(self.seen_clients()[n] == tx.client);
                assert forall|c: u16| self.ledgers().dom().contains(c)
                    implies #[trigger] self.seen_clients().contains(c) by {
                    if c == tx.client {
                        assert(self.seen_clients()[n] == c);
                    } else {
                        assert(old(self).seen_clients().contains(c));
                        let i = choose|i: int|
                            0 <= i < old(self).seen_clients().len() && old(
                                self,
                            ).seen_clients()[i] == c;
                        assert(self.seen_clients()[i] == c);
                    }
                }
                assert forall|i: int, j: int| 0 <= i < j < self.seen_clients().len()
                    implies self.seen_clients()[i] != self.seen_clients()[j] by {
                    if j == n {
                        // The pushed id was not in the map, while every
                        // previously seen id is.
                        assert(old(self).ledgers().dom().contains(
                            old(self).seen_clients()[i],
                        ));
                    }
                }
            }
        }
    }

    /// Whether applying `tx` stays within the fixed-point range, so that
    /// [`Engine::process_transaction`] may be called with it. Only a deposit
    /// that the ledger would accept can fall out of range.
    pub fn transaction_fits(&self, tx: &Transaction) -> (r: bool)
        requires
            self.wf(),
        ensures
            r == deposit_fits(self.ledger_of(tx.client), *tx),
    {
        proof {
            broadcast use crate::amount::lemma_amount_in_range;
        }
        match tx.deposited_amount() {
            Some(amount) => {
                match self.clients.get(&tx.client) {
                    Some(c) => {
                        if c.account().is_locked() {
                            true
                        } else if c.has_transaction(tx.id) {
                            true
                        } else {
                            proof {
                                assert(self.ledgers()[tx.client]@.wf());
                            }
                            let total = c.account().available_funds().raw_units()
                                + c.account().held_funds().raw_units();
                            amount.raw_units() <= i128::MAX - total
                        }
                    },
                    None => true,
                }
            },
            None => true,
        }
    }

    /// The account of the given client, if it has been seen.
    pub fn client_account(&self, client: u16) -> (r: Option<Account>)
        ensures
            match r {
                Some(a) => self.ledgers().dom().contains(client) && a@ == self.ledgers()[client]@.account,
                None => !self.ledgers().dom().contains(client),
            },
    {
        match self.clients.get(&client) {
            Some(c) => Some(*c.account()),
            None => None,
        }
    }

    /// All client accounts in the engine, one entry per seen client id, in
    /// order of first sight.
    pub fn accounts(&self) -> (r: Vec<(u16, Account)>)
        requires
            self.wf(),
        ensures
            r@.len() == self.seen_clients().len(),
            forall|i: int|
                0 <= i < r@.len() ==> (#[trigger] r@[i]).0 == self.seen_clients()[i] && r@[i].1@
                    == self.ledgers()[self.seen_clients()[i]]@.account,
    {
        let mut out: Vec<(u16, Account)> = Vec::new();
        let mut idx: usize = 0;
        while idx < self.seen.len()
            invariant
                self.wf(),
                idx <= self.seen.len(),
                out@.len() == idx,
                forall|i: int|
                    0 <= i < idx ==> (#[trigger] out@[i]).0 == self.seen_clients()[i] && out@[i].1@
                        == self.ledgers()[self.seen_clients()[i]]@.account,
            decreases self.seen.len() - idx,
        {
            let id = self.seen[idx];
            proof {
                assert(self.seen_clients()[idx as int] == id);
                assert(self.ledgers().dom().contains(id));
            }
            match self.clients.get(&id) {
                Some(c) => {
                    out.push((id, *c.account()));
                },
                None => {
                    proof {
                        // Unreachable: every seen id has a ledger.
                        assert(false);
                    }
                },
            }
            idx += 1;
        }
        out
    }
}

} // verus!
