//! The mathematical model of the ledger.
//!
//! `StoreView` is the abstract state of the ledger store: three maps, over
//! unbounded integers, mirroring the account, retained-transaction and
//! dispute maps. Each event kind's transition rule is a spec function over
//! `StoreView`; the executable transition functions are proved to implement
//! them exactly. The laws at the end state and prove the global invariant,
//! the idempotence of out-of-sequence dispute-workflow events, and that a
//! locked account never becomes unlocked.

use vstd::prelude::*;

use crate::amount::{round_units, MAX_UNITS};
use crate::transactions::{ClientID, TransactionTemplate, TxId, TxType};

verus! {

/// Abstract state of one client account.
pub ghost struct ClientView {
    pub client: u16,
    pub available: int,
    pub held: int,
    pub total: int,
    pub locked: bool,
}

/// Abstract value of a retained transaction or dispute lifecycle marker.
pub ghost enum TransactionView {
    Deposit { amount: int },
    Withdrawal { amount: int },
    Dispute,
    Resolve,
    Chargeback,
}

/// Abstract state of the whole ledger store. Retained transactions and
/// dispute markers are keyed by the packed `(transaction, client)` pair.
#[verifier::ext_equal]
pub ghost struct StoreView {
    pub accounts: Map<u16, ClientView>,
    pub txs: Map<u64, TransactionView>,
    pub disputes: Map<u64, TransactionView>,
}

/// The single map key standing for the `(transaction, client)` pair.
pub open spec fn key_of(tx: TxId, client: ClientID) -> u64 {
    (tx@ * 0x10000 + client@) as u64
}

/// Distinct `(transaction, client)` pairs never collide on one key, so a
/// dispute-workflow event naming the wrong client for a transaction finds
/// nothing.
pub proof fn lemma_key_of_injective(tx1: TxId, c1: ClientID, tx2: TxId, c2: ClientID)
    requires
        key_of(tx1, c1) == key_of(tx2, c2),
    ensures
        tx1@ == tx2@,
        c1@ == c2@,
{
}

/// The state of an account no event has touched yet.
pub open spec fn new_account(id: u16) -> ClientView {
    ClientView { client: id, available: 0, held: 0, total: 0, locked: false }
}

/// The account an event works on: the stored one, or a freshly created one
/// the first time a client is referenced.
pub open spec fn account_or_new(s: StoreView, client: ClientID) -> ClientView {
    if s.accounts.contains_key(client@) {
        s.accounts[client@]
    } else {
        new_account(client@)
    }
}

/// A deposit credits `available` and `total` and retains the transaction,
/// overwriting any prior record under the same key.
pub open spec fn deposit_applied(s: StoreView, client: ClientID, tx: TxId, amount: int) -> StoreView {
    let acct = account_or_new(s, client);
    StoreView {
        accounts: s.accounts.insert(
            client@,
            ClientView {
                client: acct.client,
                available: acct.available + amount,
                held: acct.held,
                total: acct.total + amount,
                locked: acct.locked,
            },
        ),
        txs: s.txs.insert(key_of(tx, client), TransactionView::Deposit { amount }),
        disputes: s.disputes,
    }
}

/// A withdrawal debits `available` and `total` and retains the transaction,
/// but only when `available` covers it; otherwise it is dropped, leaving
/// only the lazily created account behind.
pub open spec fn withdrawal_applied(
    s: StoreView,
    client: ClientID,
    tx: TxId,
    amount: int,
) -> StoreView {
    let acct = account_or_new(s, client);
    if acct.available >= amount {
        StoreView {
            accounts: s.accounts.insert(
                client@,
                ClientView {
                    client: acct.client,
                    available: acct.available - amount,
                    held: acct.held,
                    total: acct.total - amount,
                    locked: acct.locked,
                },
            ),
            txs: s.txs.insert(key_of(tx, client), TransactionView::Withdrawal { amount }),
            disputes: s.disputes,
        }
    } else {
        StoreView { accounts: s.accounts.insert(client@, acct), txs: s.txs, disputes: s.disputes }
    }
}

/// A dispute of a retained deposit moves the disputed amount, clamped to
/// what is still available, from `available` to `held`; a dispute of a
/// retained withdrawal only marks the transaction. Unknown transactions and
/// repeated disputes are no-ops.
pub open spec fn dispute_applied(s: StoreView, client: ClientID, tx: TxId) -> StoreView {
    let k = key_of(tx, client);
    if !s.txs.contains_key(k) || s.disputes.contains_key(k) {
        s
    } else {
        match s.txs[k] {
            TransactionView::Deposit { amount } => {
                let acct = account_or_new(s, client);
                let moved = vstd::math::min(acct.available, amount);
                StoreView {
                    accounts: s.accounts.insert(
                        client@,
                        ClientView {
                            client: acct.client,
                            available: acct.available - moved,
                            held: acct.held + moved,
                            total: acct.total,
                            locked: acct.locked,
                        },
                    ),
                    txs: s.txs,
                    disputes: s.disputes.insert(k, TransactionView::Dispute),
                }
            },
            TransactionView::Withdrawal { .. } => StoreView {
                accounts: s.accounts,
                txs: s.txs,
                disputes: s.disputes.insert(k, TransactionView::Dispute),
            },
            _ => s,
        }
    }
}

/// A resolve of a transaction whose dispute state is exactly `Dispute`
/// releases the held amount, clamped to what is held, back to `available`
/// for a deposit, and only advances the marker for a withdrawal. Anything
/// else is a no-op.
pub open spec fn resolve_applied(s: StoreView, client: ClientID, tx: TxId) -> StoreView {
    let k = key_of(tx, client);
    if !s.txs.contains_key(k) {
        s
    } else if !(s.disputes.contains_key(k) && s.disputes[k] is Dispute) {
        s
    } else {
        match s.txs[k] {
            TransactionView::Deposit { amount } => {
                let acct = account_or_new(s, client);
                let moved = vstd::math::min(acct.held, amount);
                StoreView {
                    accounts: s.accounts.insert(
                        client@,
                        ClientView {
                            client: acct.client,
                            available: acct.available + moved,
                            held: acct.held - moved,
                            total: acct.total,
                            locked: acct.locked,
                        },
                    ),
                    txs: s.txs,
                    disputes: s.disputes.insert(k, TransactionView::Resolve),
                }
            },
            TransactionView::Withdrawal { .. } => StoreView {
                accounts: s.accounts,
                txs: s.txs,
                disputes: s.disputes.insert(k, TransactionView::Resolve),
            },
            _ => s,
        }
    }
}

/// A chargeback of a transaction whose dispute state is exactly `Resolve`
/// takes the amount, clamped to what is available, out of the account and
/// locks it for a deposit; for a withdrawal it returns the amount without
/// locking. Anything else is a no-op. A locked account stays locked.
pub open spec fn chargeback_applied(s: StoreView, client: ClientID, tx: TxId) -> StoreView {
    let k = key_of(tx, client);
    if !s.txs.contains_key(k) {
        s
    } else if !(s.disputes.contains_key(k) && s.disputes[k] is Resolve) {
        s
    } else {
        match s.txs[k] {
            TransactionView::Deposit { amount } => {
                let acct = account_or_new(s, client);
                let moved = vstd::math::min(acct.available, amount);
                StoreView {
                    accounts: s.accounts.insert(
                        client@,
                        ClientView {
                            client: acct.client,
                            available: acct.available - moved,
                            held: acct.held,
                            total: acct.total - moved,
                            locked: true,
                        },
                    ),
                    txs: s.txs,
                    disputes: s.disputes.insert(k, TransactionView::Chargeback),
                }
            },
            TransactionView::Withdrawal { amount } => {
                let acct = account_or_new(s, client);
                StoreView {
                    accounts: s.accounts.insert(
                        client@,
                        ClientView {
                            client: acct.client,
                            available: acct.available + amount,
                            held: acct.held,
                            total: acct.total + amount,
                            locked: acct.locked,
                        },
                    ),
                    txs: s.txs,
                    disputes: s.disputes.insert(k, TransactionView::Chargeback),
                }
            },
            _ => s,
        }
    }
}

/// A deposit or withdrawal event must carry an amount; the other event
/// kinds ignore any amount supplied.
pub open spec fn event_ok(t: TransactionTemplate) -> bool {
    match t.tx_type {
        TxType::Deposit => t.amount is Some,
        TxType::Withdrawal => t.amount is Some,
        _ => true,
    }
}

/// The amount an event carries (meaningful only when `event_ok` holds for
/// the kinds that need one).
pub open spec fn amount_of(t: TransactionTemplate) -> int {
    match t.amount {
        Some(a) => a@,
        None => 0,
    }
}

/// The state after one valid event, by kind.
pub open spec fn event_applied(s: StoreView, t: TransactionTemplate) -> StoreView {
    match t.tx_type {
        TxType::Deposit => deposit_applied(s, t.client, t.tx, amount_of(t)),
        TxType::Withdrawal => withdrawal_applied(s, t.client, t.tx, amount_of(t)),
        TxType::Dispute => dispute_applied(s, t.client, t.tx),
        TxType::Resolve => resolve_applied(s, t.client, t.tx),
        TxType::Chargeback => chargeback_applied(s, t.client, t.tx),
    }
}

/// A deposit fits when the credited balance stays within `MAX_UNITS`.
pub open spec fn deposit_fits(s: StoreView, client: ClientID, amount: Option<
    crate::amount::Amount,
>) -> bool {
    match amount {
        Some(a) => account_or_new(s, client).total + a@ <= MAX_UNITS,
        None => true,
    }
}

/// A chargeback fits when the balance returned by reversing a withdrawal
/// stays within `MAX_UNITS`.
pub open spec fn chargeback_fits(s: StoreView, client: ClientID, tx: TxId) -> bool {
    let k = key_of(tx, client);
    if s.txs.contains_key(k) && s.disputes.contains_key(k) && s.disputes[k] is Resolve {
        match s.txs[k] {
            TransactionView::Withdrawal { amount } => account_or_new(s, client).total + amount
                <= MAX_UNITS,
            _ => true,
        }
    } else {
        true
    }
}

/// The machine-limit side condition an event must satisfy so that the new
/// balances stay representable. Only deposits and withdrawal chargebacks
/// increase a balance; every other event kind always fits.
pub open spec fn event_fits(s: StoreView, t: TransactionTemplate) -> bool {
    match t.tx_type {
        TxType::Deposit => deposit_fits(s, t.client, t.amount),
        TxType::Chargeback => chargeback_fits(s, t.client, t.tx),
        _ => true,
    }
}

/// Validity of one stored account: it is filed under its own identifier,
/// `available` and `held` are never negative, `total` is exactly their sum,
/// and the balance is representable.
pub open spec fn account_inv(a: ClientView, id: u16) -> bool {
    &&& a.client == id
    &&& 0 <= a.available
    &&& 0 <= a.held
    &&& a.total == a.available + a.held
    &&& a.total <= MAX_UNITS
}

/// Each balance of the account is non-negative and representable (what
/// rescaling for display needs; weaker than `account_inv`).
pub open spec fn account_bounded(a: ClientView) -> bool {
    &&& 0 <= a.available <= MAX_UNITS
    &&& 0 <= a.held <= MAX_UNITS
    &&& 0 <= a.total <= MAX_UNITS
}

/// The retained-transaction map holds only original deposits and
/// withdrawals, with representable amounts.
pub open spec fn stored_tx_inv(t: TransactionView) -> bool {
    match t {
        TransactionView::Deposit { amount } => 0 <= amount <= MAX_UNITS,
        TransactionView::Withdrawal { amount } => 0 <= amount <= MAX_UNITS,
        _ => false,
    }
}

/// The dispute map holds only lifecycle markers.
pub open spec fn dispute_mark_inv(t: TransactionView) -> bool {
    t is Dispute || t is Resolve || t is Chargeback
}

/// The ledger invariant: every account is valid, every retained
/// transaction is an original deposit or withdrawal, and a dispute marker
/// exists only for a retained transaction.
pub open spec fn inv(s: StoreView) -> bool {
    &&& forall|c: u16| #[trigger] s.accounts.contains_key(c) ==> account_inv(s.accounts[c], c)
    &&& forall|k: u64| #[trigger] s.txs.contains_key(k) ==> stored_tx_inv(s.txs[k])
    &&& forall|k: u64| #[trigger] s.disputes.contains_key(k) ==> s.txs.contains_key(k)
        && dispute_mark_inv(s.disputes[k])
}

/// An account reported for display: every balance rounded to `digits`
/// fractional digits, half away from zero.
pub open spec fn rescaled_account(a: ClientView, digits: nat) -> ClientView {
    ClientView {
        client: a.client,
        available: round_units(a.available, digits),
        held: round_units(a.held, digits),
        total: round_units(a.total, digits),
        locked: a.locked,
    }
}

pub proof fn lemma_deposit_preserves_invariant(s: StoreView, client: ClientID, tx: TxId, amount: int)
    requires
        inv(s),
        0 <= amount,
        account_or_new(s, client).total + amount <= MAX_UNITS,
    ensures
        inv(deposit_applied(s, client, tx, amount)),
{
}

pub proof fn lemma_withdrawal_preserves_invariant(
    s: StoreView,
    client: ClientID,
    tx: TxId,
    amount: int,
)
    requires
        inv(s),
        0 <= amount,
    ensures
        inv(withdrawal_applied(s, client, tx, amount)),
{
}

pub proof fn lemma_dispute_preserves_invariant(s: StoreView, client: ClientID, tx: TxId)
    requires
        inv(s),
    ensures
        inv(dispute_applied(s, client, tx)),
{
}

pub proof fn lemma_resolve_preserves_invariant(s: StoreView, client: ClientID, tx: TxId)
    requires
        inv(s),
    ensures
        inv(resolve_applied(s, client, tx)),
{
}

pub proof fn lemma_chargeback_preserves_invariant(s: StoreView, client: ClientID, tx: TxId)
    requires
        inv(s),
        chargeback_fits(s, client, tx),
    ensures
        inv(chargeback_applied(s, client, tx)),
{
}

/// The ledger invariant holds after every event: `total` remains exactly
/// `available + held`, and the clamps keep `available` and `held`
/// non-negative, for every client.
pub proof fn lemma_event_preserves_invariant(s: StoreView, t: TransactionTemplate)
    requires
        inv(s),
        event_ok(t),
        event_fits(s, t),
    ensures
        inv(event_applied(s, t)),
{
    match t.tx_type {
        TxType::Deposit => lemma_deposit_preserves_invariant(s, t.client, t.tx, amount_of(t)),
        TxType::Withdrawal => lemma_withdrawal_preserves_invariant(
            s,
            t.client,
            t.tx,
            amount_of(t),
        ),
        TxType::Dispute => lemma_dispute_preserves_invariant(s, t.client, t.tx),
        TxType::Resolve => lemma_resolve_preserves_invariant(s, t.client, t.tx),
        TxType::Chargeback => lemma_chargeback_preserves_invariant(s, t.client, t.tx),
    }
}

/// Disputing a transaction that is already in the dispute lifecycle is a
/// no-op: a transaction can be disputed at most once.
pub proof fn lemma_dispute_idempotent(s: StoreView, client: ClientID, tx: TxId)
    requires
        s.disputes.contains_key(key_of(tx, client)),
    ensures
        dispute_applied(s, client, tx) == s,
{
}

/// A resolve outside the required prior state (a retained transaction whose
/// dispute state is exactly `Dispute`) is a no-op.
pub proof fn lemma_resolve_out_of_sequence(s: StoreView, client: ClientID, tx: TxId)
    requires
        !(s.txs.contains_key(key_of(tx, client)) && s.disputes.contains_key(key_of(tx, client))
            && s.disputes[key_of(tx, client)] is Dispute),
    ensures
        resolve_applied(s, client, tx) == s,
{
}

/// A chargeback outside the required prior state (a retained transaction
/// whose dispute state is exactly `Resolve`) is a no-op.
pub proof fn lemma_chargeback_out_of_sequence(s: StoreView, client: ClientID, tx: TxId)
    requires
        !(s.txs.contains_key(key_of(tx, client)) && s.disputes.contains_key(key_of(tx, client))
            && s.disputes[key_of(tx, client)] is Resolve),
    ensures
        chargeback_applied(s, client, tx) == s,
{
}

/// No event unsets an account's lock: once locked, always locked.
pub proof fn lemma_locked_never_unset(s: StoreView, t: TransactionTemplate, c: u16)
    requires
        s.accounts.contains_key(c),
        s.accounts[c].locked,
    ensures
        event_applied(s, t).accounts.contains_key(c),
        event_applied(s, t).accounts[c].locked,
{
}

} // verus!
