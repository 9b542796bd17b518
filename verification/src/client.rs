//! Per-client transaction ledger: routes each transaction to the account and
//! enforces idempotency and the dispute lifecycle.

use vstd::prelude::*;
use vstd::hash_map::HashMapWithView;
use vstd::hash_set::HashSetWithView;
use crate::account::{Account, AccountModel};
use crate::transaction::{Transaction, TxPayload};

verus! {

broadcast use vstd::std_specs::hash::group_hash_axioms;

/// Tracks disputed transactions for a client.
///
/// A transaction id is in at most one of the two sets: `txs` holds the ids
/// currently under dispute, `chargebacks` the ids whose dispute ended in a
/// chargeback. A charged-back id never re-enters the disputed set.
pub struct Disputes {
    txs: HashSetWithView<u32>,
    chargebacks: HashSetWithView<u32>,
}

impl Disputes {
    /// The ids currently under dispute.
    pub closed spec fn disputed_ids(self) -> Set<u32> {
        self.txs@
    }

    /// The ids whose dispute ended in a chargeback.
    pub closed spec fn chargeback_ids(self) -> Set<u32> {
        self.chargebacks@
    }

    /// No dispute has ever been opened.
    pub fn new() -> (r: Disputes)
        ensures
            r.disputed_ids() == Set::<u32>::empty(),
            r.chargeback_ids() == Set::<u32>::empty(),
    {
        Disputes { txs: HashSetWithView::new(), chargebacks: HashSetWithView::new() }
    }

    /// Whether `tx` is currently disputed or already charged back.
    pub fn is_disputed(&self, tx: u32) -> (r: bool)
        ensures
            r == (self.disputed_ids().contains(tx) || self.chargeback_ids().contains(tx)),
    {
        self.txs.contains(&tx) || self.chargebacks.contains(&tx)
    }

    /// Mark `tx` as disputed. Returns true if it was not already so marked.
    pub fn dispute(&mut self, tx: u32) -> (r: bool)
        ensures
            final(self).disputed_ids() == old(self).disputed_ids().insert(tx),
            final(self).chargeback_ids() == old(self).chargeback_ids(),
            r == !old(self).disputed_ids().contains(tx),
    {
        self.txs.insert(tx)
    }

    /// Close the dispute on `tx` in the client's favour. Returns true if
    /// `tx` was in the disputed set.
    pub fn resolve(&mut self, tx: u32) -> (r: bool)
        ensures
            final(self).disputed_ids() == old(self).disputed_ids().remove(tx),
            final(self).chargeback_ids() == old(self).chargeback_ids(),
            r == old(self).disputed_ids().contains(tx),
    {
        self.txs.remove(&tx)
    }

    /// Close the dispute on `tx` against the client. Returns true if `tx`
    /// was in the disputed set; only then is it moved to the charged-back set.
    pub fn chargeback(&mut self, tx: u32) -> (r: bool)
        ensures
            final(self).disputed_ids() == old(self).disputed_ids().remove(tx),
            final(self).chargeback_ids() == if old(self).disputed_ids().contains(tx) {
                old(self).chargeback_ids().insert(tx)
            } else {
                old(self).chargeback_ids()
            },
            r == old(self).disputed_ids().contains(tx),
    {
        let found = self.txs.remove(&tx);

        if found {
            self.chargebacks.insert(tx);
        }

        found
    }
}

/// The amount a deposit transaction carries; zero for any other kind.
pub open spec fn tx_deposit_amount(t: Transaction) -> int {
    match t.payload {
        TxPayload::Deposit { amount } => amount@,
        _ => 0,
    }
}

/// The sum of the deposited amounts of the transactions in `ids`.
pub open spec fn sum_deposits(txs: Map<u32, Transaction>, ids: Set<u32>) -> int
    decreases ids.len(),
    when ids.finite()
{
    if ids.len() == 0 {
        0
    } else {
        let id = ids.choose();
        tx_deposit_amount(txs[id]) + sum_deposits(txs, ids.remove(id))
    }
}

/// Removing a member of `ids` takes its amount out of the sum.
pub proof fn lemma_sum_deposits_remove(txs: Map<u32, Transaction>, ids: Set<u32>, id: u32)
    requires
        ids.finite(),
        ids.contains(id),
    ensures
        sum_deposits(txs, ids) == tx_deposit_amount(txs[id]) + sum_deposits(txs, ids.remove(id)),
    decreases ids.len(),
{
    let c = ids.choose();
    assert(ids.contains(c));
    if c != id {
        lemma_sum_deposits_remove(txs, ids.remove(c), id);
        lemma_sum_deposits_remove(txs, ids.remove(id), c);
        assert(ids.remove(c).remove(id) =~= ids.remove(id).remove(c));
    }
}

/// Inserting a fresh id adds its amount to the sum.
pub proof fn lemma_sum_deposits_insert(txs: Map<u32, Transaction>, ids: Set<u32>, id: u32)
    requires
        ids.finite(),
        !ids.contains(id),
    ensures
        sum_deposits(txs, ids.insert(id)) == sum_deposits(txs, ids) + tx_deposit_amount(txs[id]),
{
    lemma_sum_deposits_remove(txs, ids.insert(id), id);
    assert(ids.insert(id).remove(id) =~= ids);
}

/// A sum of non-negative amounts is non-negative.
pub proof fn lemma_sum_deposits_nonneg(txs: Map<u32, Transaction>, ids: Set<u32>)
    requires
        ids.finite(),
        forall|id: u32| ids.contains(id) ==> tx_deposit_amount(#[trigger] txs[id]) >= 0,
    ensures
        sum_deposits(txs, ids) >= 0,
    decreases ids.len(),
{
    if ids.len() > 0 {
        let c = ids.choose();
        assert(ids.contains(c));
        lemma_sum_deposits_nonneg(txs, ids.remove(c));
    }
}

/// The sum only depends on the transactions the ids name.
pub proof fn lemma_sum_deposits_agree(
    txs1: Map<u32, Transaction>,
    txs2: Map<u32, Transaction>,
    ids: Set<u32>,
)
    requires
        ids.finite(),
        forall|id: u32| ids.contains(id) ==> #[trigger] txs1[id] == txs2[id],
    ensures
        sum_deposits(txs1, ids) == sum_deposits(txs2, ids),
    decreases ids.len(),
{
    if ids.len() > 0 {
        let c = ids.choose();
        assert(ids.contains(c));
        lemma_sum_deposits_agree(txs1, txs2, ids.remove(c));
    }
}

/// The mathematical state of a client ledger: the account balances, the
/// accepted deposit/withdrawal transactions by id, and the dispute state of
/// each id.
#[verifier::ext_equal]
pub ghost struct LedgerModel {
    /// The account balances and lock flag.
    pub account: AccountModel,
    /// The accepted transactions, by id.
    pub txs: Map<u32, Transaction>,
    /// The ids currently under dispute.
    pub disputed: Set<u32>,
    /// The ids whose dispute ended in a chargeback.
    pub charged_back: Set<u32>,
}

impl LedgerModel {
    /// The state of a fresh ledger: zero balances, no history, no disputes.
    pub open spec fn init() -> LedgerModel {
        LedgerModel {
            account: AccountModel::init(),
            txs: Map::empty(),
            disputed: Set::empty(),
            charged_back: Set::empty(),
        }
    }

    /// The ledger invariant.
    ///
    /// The account is well formed; every recorded transaction carries a
    /// non-negative amount; disputed and charged-back ids name recorded
    /// deposits and never overlap; the held funds are exactly the sum of the
    /// currently disputed deposits; and the account is locked if and only if
    /// some dispute ended in a chargeback.
    pub open spec fn wf(self) -> bool {
        &&& self.account.wf()
        &&& self.txs.dom().finite()
        &&& self.disputed.finite()
        &&& self.charged_back.finite()
        &&& forall|id: u32| self.txs.dom().contains(id) ==> (#[trigger] self.txs[id]).wf()
        &&& forall|id: u32|
            self.disputed.contains(id) ==> self.txs.dom().contains(id) && (#[trigger] self.txs[id]).payload is Deposit
        &&& forall|id: u32|
            self.charged_back.contains(id) ==> self.txs.dom().contains(id) && (#[trigger] self.txs[id]).payload is Deposit
        &&& forall|id: u32| self.disputed.contains(id) ==> !(#[trigger] self.charged_back.contains(id))
        &&& self.account.held == sum_deposits(self.txs, self.disputed)
        &&& self.account.locked == (self.charged_back.len() != 0)
    }
}

/// Whether applying `tx` can be represented: a deposit that the ledger would
/// accept must not push the total funds beyond the fixed-point range.
pub open spec fn deposit_fits(s: LedgerModel, tx: Transaction) -> bool {
    match tx.payload {
        TxPayload::Deposit { amount } => {
            ||| s.account.locked
            ||| s.txs.dom().contains(tx.id)
            ||| s.account.available + s.account.held + amount@ <= i128::MAX
        },
        _ => true,
    }
}

/// The ledger state machine: the state after applying one transaction.
///
/// This is the specification that [`Client::process_transaction`] is proved
/// to implement; each arm mirrors one business rule.
pub open spec fn apply_spec(s: LedgerModel, tx: Transaction) -> LedgerModel {
    if s.account.locked {
        // A locked account accepts no further transactions.
        s
    } else {
        match tx.payload {
            TxPayload::Deposit { amount } => {
                if s.txs.dom().contains(tx.id) {
                    // Duplicate id: idempotent no-op.
                    s
                } else {
                    LedgerModel {
                        account: AccountModel {
                            available: s.account.available + amount@,
                            ..s.account
                        },
                        txs: s.txs.insert(tx.id, tx),
                        ..s
                    }
                }
            },
            TxPayload::Withdrawal { amount } => {
                if s.txs.dom().contains(tx.id) {
                    // Duplicate id: idempotent no-op.
                    s
                } else if s.account.available >= amount@ {
                    LedgerModel {
                        account: AccountModel {
                            available: s.account.available - amount@,
                            ..s.account
                        },
                        txs: s.txs.insert(tx.id, tx),
                        ..s
                    }
                } else {
                    // Insufficient funds: dropped without trace.
                    s
                }
            },
            TxPayload::Dispute => {
                if !s.disputed.contains(tx.id) && !s.charged_back.contains(tx.id)
                    && s.txs.dom().contains(tx.id) && s.txs[tx.id].payload is Deposit
                    && s.account.available >= tx_deposit_amount(s.txs[tx.id]) {
                    LedgerModel {
                        account: AccountModel {
                            available: s.account.available - tx_deposit_amount(s.txs[tx.id]),
                            held: s.account.held + tx_deposit_amount(s.txs[tx.id]),
                            ..s.account
                        },
                        disputed: s.disputed.insert(tx.id),
                        ..s
                    }
                } else {
                    s
                }
            },
            TxPayload::Resolve => {
                if s.disputed.contains(tx.id) && s.txs.dom().contains(tx.id)
                    && s.txs[tx.id].payload is Deposit {
                    LedgerModel {
                        account: AccountModel {
                            available: s.account.available + tx_deposit_amount(s.txs[tx.id]),
                            held: s.account.held - tx_deposit_amount(s.txs[tx.id]),
                            ..s.account
                        },
                        disputed: s.disputed.remove(tx.id),
                        ..s
                    }
                } else {
                    s
                }
            },
            TxPayload::Chargeback => {
                if s.disputed.contains(tx.id) && s.txs.dom().contains(tx.id)
                    && s.txs[tx.id].payload is Deposit {
                    LedgerModel {
                        account: AccountModel {
                            held: s.account.held - tx_deposit_amount(s.txs[tx.id]),
                            locked: true,
                            ..s.account
                        },
                        disputed: s.disputed.remove(tx.id),
                        charged_back: s.charged_back.insert(tx.id),
                        ..s
                    }
                } else {
                    s
                }
            },
        }
    }
}

/// The state after applying a whole sequence of transactions in order.
pub open spec fn apply_all(s: LedgerModel, txs: Seq<Transaction>) -> LedgerModel
    decreases txs.len(),
{
    if txs.len() == 0 {
        s
    } else {
        apply_spec(apply_all(s, txs.drop_last()), txs.last())
    }
}

/// The change `tx` makes to the total funds when applied in state `s`: the
/// amount of an accepted deposit, the negated amount of an accepted
/// withdrawal, zero otherwise.
pub open spec fn accepted_delta(s: LedgerModel, tx: Transaction) -> int {
    if s.account.locked {
        0
    } else {
        match tx.payload {
            TxPayload::Deposit { amount } => {
                if s.txs.dom().contains(tx.id) {
                    0
                } else {
                    amount@
                }
            },
            TxPayload::Withdrawal { amount } => {
                if !s.txs.dom().contains(tx.id) && s.account.available >= amount@ {
                    -amount@
                } else {
                    0
                }
            },
            _ => 0,
        }
    }
}

/// The sum of the accepted deposits minus the accepted withdrawals of a
/// sequence of transactions applied in order from state `s`.
pub open spec fn net_accepted(s: LedgerModel, txs: Seq<Transaction>) -> int
    decreases txs.len(),
{
    if txs.len() == 0 {
        0
    } else {
        net_accepted(s, txs.drop_last()) + accepted_delta(
            apply_all(s, txs.drop_last()),
            txs.last(),
        )
    }
}

/// Whether every transaction of the sequence is a deposit or a withdrawal.
pub open spec fn deposits_and_withdrawals_only(txs: Seq<Transaction>) -> bool {
    forall|i: int|
        0 <= i < txs.len() ==> ((#[trigger] txs[i]).payload is Deposit || txs[i].payload
            is Withdrawal)
}

/// Applying one transaction to a well-formed state gives a well-formed
/// state, provided an accepted deposit stays within the fixed-point range.
pub proof fn lemma_apply_preserves_wf(s: LedgerModel, tx: Transaction)
    requires
        s.wf(),
        tx.wf(),
        deposit_fits(s, tx),
    ensures
        apply_spec(s, tx).wf(),
{
    if !s.account.locked {
        match tx.payload {
            TxPayload::Deposit { amount } => {
                if !s.txs.dom().contains(tx.id) {
                    lemma_sum_deposits_agree(s.txs, s.txs.insert(tx.id, tx), s.disputed);
                }
            },
            TxPayload::Withdrawal { amount } => {
                if !s.txs.dom().contains(tx.id) && s.account.available >= amount@ {
                    lemma_sum_deposits_agree(s.txs, s.txs.insert(tx.id, tx), s.disputed);
                }
            },
            TxPayload::Dispute => {
                if !s.disputed.contains(tx.id) && !s.charged_back.contains(tx.id)
                    && s.txs.dom().contains(tx.id) && s.txs[tx.id].payload is Deposit
                    && s.account.available >= tx_deposit_amount(s.txs[tx.id]) {
                    lemma_sum_deposits_insert(s.txs, s.disputed, tx.id);
                }
            },
            TxPayload::Resolve => {
                if s.disputed.contains(tx.id) && s.txs.dom().contains(tx.id)
                    && s.txs[tx.id].payload is Deposit {
                    lemma_sum_deposits_remove(s.txs, s.disputed, tx.id);
                    lemma_sum_deposits_nonneg(s.txs, s.disputed.remove(tx.id));
                }
            },
            TxPayload::Chargeback => {
                if s.disputed.contains(tx.id) && s.txs.dom().contains(tx.id)
                    && s.txs[tx.id].payload is Deposit {
                    lemma_sum_deposits_remove(s.txs, s.disputed, tx.id);
                    lemma_sum_deposits_nonneg(s.txs, s.disputed.remove(tx.id));
                }
            },
        }
    }
}

/// The ledger invariant holds along any well-formed transaction stream:
/// available and held funds never go negative, the total funds are always
/// their sum, and the account is locked exactly when a chargeback has been
/// accepted. Each accepted deposit must stay within the fixed-point range.
pub proof fn lemma_stream_invariant_from(s: LedgerModel, txs: Seq<Transaction>)
    requires
        s.wf(),
        forall|i: int| 0 <= i < txs.len() ==> (#[trigger] txs[i]).wf(),
        forall|i: int|
            0 <= i < txs.len() ==> deposit_fits(apply_all(s, txs.take(i)), #[trigger] txs[i]),
    ensures
        apply_all(s, txs).wf(),
    decreases txs.len(),
{
    if txs.len() > 0 {
        let prefix = txs.drop_last();
        assert forall|i: int| 0 <= i < prefix.len() implies deposit_fits(
            apply_all(s, prefix.take(i)),
            #[trigger] prefix[i],
        ) by {
            assert(prefix.take(i) =~= txs.take(i));
            assert(prefix[i] == txs[i]);
        }
        lemma_stream_invariant_from(s, prefix);
        assert(txs.take(txs.len() - 1) =~= prefix);
        lemma_apply_preserves_wf(apply_all(s, prefix), txs.last());
    }
}

/// The ledger invariant holds along any well-formed transaction stream that
/// starts from a fresh ledger.
pub proof fn lemma_stream_invariant(txs: Seq<Transaction>)
    requires
        forall|i: int| 0 <= i < txs.len() ==> (#[trigger] txs[i]).wf(),
        forall|i: int|
            0 <= i < txs.len() ==> deposit_fits(
                apply_all(LedgerModel::init(), txs.take(i)),
                #[trigger] txs[i],
            ),
    ensures
        apply_all(LedgerModel::init(), txs).wf(),
{
    lemma_stream_invariant_from(LedgerModel::init(), txs);
}

proof fn lemma_no_dispute_stream_from(s: LedgerModel, txs: Seq<Transaction>)
    requires
        !s.account.locked,
        deposits_and_withdrawals_only(txs),
    ensures
        apply_all(s, txs).account.held == s.account.held,
        !apply_all(s, txs).account.locked,
        apply_all(s, txs).account.available == s.account.available + net_accepted(s, txs),
    decreases txs.len(),
{
    if txs.len() > 0 {
        lemma_no_dispute_stream_from(s, txs.drop_last());
    }
}

/// For a stream of deposits and withdrawals only, applied to a fresh ledger,
/// no funds are ever held, the account never locks, and the total funds
/// equal the sum of the accepted deposits minus the accepted withdrawals, so
/// the total and the available funds coincide.
pub proof fn lemma_deposit_withdrawal_stream(txs: Seq<Transaction>)
    requires
        deposits_and_withdrawals_only(txs),
    ensures
        ({
            let f = apply_all(LedgerModel::init(), txs);
            &&& f.account.held == 0
            &&& !f.account.locked
            &&& f.account.available == net_accepted(LedgerModel::init(), txs)
            &&& f.account.available + f.account.held == net_accepted(LedgerModel::init(), txs)
        }),
{
    lemma_no_dispute_stream_from(LedgerModel::init(), txs);
}

/// Replaying the same deposit or withdrawal twice yields the same ledger
/// state as applying it once.
pub proof fn lemma_replay_idempotent(s: LedgerModel, tx: Transaction)
    requires
        tx.payload is Deposit || tx.payload is Withdrawal,
    ensures
        apply_spec(apply_spec(s, tx), tx) == apply_spec(s, tx),
{
}

/// Disputing a recorded deposit that the available funds cover and then
/// resolving the dispute returns the ledger to its original state.
pub proof fn lemma_dispute_resolve_round_trip(s: LedgerModel, id: u32, client: u16)
    requires
        !s.account.locked,
        s.txs.dom().contains(id),
        s.txs[id].payload is Deposit,
        tx_deposit_amount(s.txs[id]) <= s.account.available,
        !s.disputed.contains(id),
        !s.charged_back.contains(id),
    ensures
        ({
            let dispute = Transaction { id, client, payload: TxPayload::Dispute };
            let resolve = Transaction { id, client, payload: TxPayload::Resolve };
            apply_spec(apply_spec(s, dispute), resolve) == s
        }),
{
    let dispute = Transaction { id, client, payload: TxPayload::Dispute };
    let resolve = Transaction { id, client, payload: TxPayload::Resolve };
    assert(s.disputed.insert(id).remove(id) =~= s.disputed);
    assert(apply_spec(apply_spec(s, dispute), resolve) =~= s);
}

/// Every transaction aimed at a locked account is a no-op.
pub proof fn lemma_locked_is_no_op(s: LedgerModel, tx: Transaction)
    requires
        s.account.locked,
    ensures
        apply_spec(s, tx) == s,
{
}

/// A dispute referencing an id with no recorded transaction is a no-op.
pub proof fn lemma_dispute_unknown_is_no_op(s: LedgerModel, id: u32, client: u16)
    requires
        !s.txs.dom().contains(id),
    ensures
        apply_spec(s, (Transaction { id, client, payload: TxPayload::Dispute })) == s,
{
}

/// A dispute of a recorded deposit whose amount exceeds the available funds
/// is never accepted: holding the funds would overdraw the account.
pub proof fn lemma_dispute_insufficient_is_no_op(s: LedgerModel, id: u32, client: u16)
    requires
        s.txs.dom().contains(id),
        s.txs[id].payload is Deposit,
        tx_deposit_amount(s.txs[id]) > s.account.available,
    ensures
        apply_spec(s, (Transaction { id, client, payload: TxPayload::Dispute })) == s,
{
}

/// A withdrawal exceeding the available funds changes nothing and leaves no
/// trace: the ledger state is unchanged, and if no transaction with its id
/// was recorded before, a later dispute of that id is still a no-op.
pub proof fn lemma_failed_withdrawal_is_no_op(s: LedgerModel, tx: Transaction, client: u16)
    requires
        tx.payload matches TxPayload::Withdrawal { amount } && amount@ > s.account.available,
    ensures
        apply_spec(s, tx) == s,
        !s.txs.dom().contains(tx.id) ==> apply_spec(
            apply_spec(s, tx),
            (Transaction { id: tx.id, client, payload: TxPayload::Dispute }),
        ) == s,
{
}

/// A client of the payment engine: an account plus the history of accepted
/// transactions and the dispute state of each id.
pub struct Client {
    account: Account,
    disputes: Disputes,
    txs: HashMapWithView<u32, Transaction>,
}

impl View for Client {
    type V = LedgerModel;

    closed spec fn view(&self) -> LedgerModel {
        LedgerModel {
            account: self.account@,
            txs: self.txs@,
            disputed: self.disputes.disputed_ids(),
            charged_back: self.disputes.chargeback_ids(),
        }
    }
}

impl Default for Client {
    /// A fresh client: zero balances, no history, no disputes.
    fn default() -> (r: Self)
        ensures
            r@ == LedgerModel::init(),
            r@.wf(),
    {
        Client { account: Account::default(), disputes: Disputes::new(), txs: HashMapWithView::new() }
    }
}

impl Client {
    /// The client's account.
    pub fn account(&self) -> (r: &Account)
        ensures
            r@ == self@.account,
    {
        &self.account
    }

    /// The client's dispute state.
    pub fn disputes(&self) -> (r: &Disputes)
        ensures
            r.disputed_ids() == self@.disputed,
            r.chargeback_ids() == self@.charged_back,
    {
        &self.disputes
    }

    /// Whether a deposit or withdrawal with this id has been accepted.
    pub fn has_transaction(&self, id: u32) -> (r: bool)
        ensures
            r == self@.txs.dom().contains(id),
    {
        self.txs.contains_key(&id)
    }

    /// Apply one transaction to the ledger, as [`apply_spec`] describes.
    pub fn process_transaction(&mut self, tx: Transaction)
        requires
            old(self)@.wf(),
            tx.wf(),
            deposit_fits(old(self)@, tx),
        ensures
            final(self)@ == apply_spec(old(self)@, tx),
            final(self)@.wf(),
    {
        if self.account.is_locked() {
            return;
        }

        match tx.payload {
            TxPayload::Deposit { amount } => {
                if self.txs.contains_key(&tx.id) {
                    return;
                }

                proof {
                    lemma_sum_deposits_agree(
                        old(self)@.txs,
                        old(self)@.txs.insert(tx.id, tx),
                        old(self)@.disputed,
                    );
                }
                self.account.deposit(amount);
                self.txs.insert(tx.id, tx);
            },
            TxPayload::Withdrawal { amount } => {
                if self.txs.contains_key(&tx.id) {
                    return;
                }

                if self.account.withdraw(amount).is_ok() {
                    proof {
                        lemma_sum_deposits_agree(
                            old(self)@.txs,
                            old(self)@.txs.insert(tx.id, tx),
                            old(self)@.disputed,
                        );
                    }
                    self.txs.insert(tx.id, tx);
                }
            },
            TxPayload::Dispute => {
                if !self.disputes.is_disputed(tx.id) {
                    if let Some(original_tx) = self.txs.get(&tx.id) {
                        if let Some(amount) = original_tx.deposited_amount() {
                            if self.account.hold_funds(amount).is_ok() {
                                proof {
                                    lemma_sum_deposits_insert(
                                        old(self)@.txs,
                                        old(self)@.disputed,
                                        tx.id,
                                    );
                                }
                                self.disputes.dispute(tx.id);
                            }
                        }
                    }
                }
            },
            TxPayload::Resolve => {
                if self.disputes.is_disputed(tx.id) {
                    if let Some(original_tx) = self.txs.get(&tx.id) {
                        if let Some(amount) = original_tx.deposited_amount() {
                            proof {
                                old(self)@.charged_back.lemma_len0_is_empty();
                                lemma_sum_deposits_remove(
                                    old(self)@.txs,
                                    old(self)@.disputed,
                                    tx.id,
                                );
                                lemma_sum_deposits_nonneg(
                                    old(self)@.txs,
                                    old(self)@.disputed.remove(tx.id),
                                );
                            }
                            self.account.release_funds(amount);
                            self.disputes.resolve(tx.id);
                        }
                    }
                }
            },
            TxPayload::Chargeback => {
                if self.disputes.is_disputed(tx.id) {
                    if let Some(original_tx) = self.txs.get(&tx.id) {
                        if let Some(amount) = original_tx.deposited_amount() {
                            proof {
                                old(self)@.charged_back.lemma_len0_is_empty();
                                lemma_sum_deposits_remove(
                                    old(self)@.txs,
                                    old(self)@.disputed,
                                    tx.id,
                                );
                                lemma_sum_deposits_nonneg(
                                    old(self)@.txs,
                                    old(self)@.disputed.remove(tx.id),
                                );
                            }
                            self.account.chargeback(amount);
                            self.disputes.chargeback(tx.id);
                        }
                    }
                }
            },
        }
    }
}

} // verus!
