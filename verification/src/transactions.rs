//! Event and account types, and the per-event transition functions.
//!
//! Incoming events are `TransactionTemplate` values; original deposits and
//! withdrawals are retained as `Transaction` values so that later
//! dispute-workflow events can reference them, and the `Dispute`, `Resolve`
//! and `Chargeback` variants double as the lifecycle markers kept in the
//! dispute map. Each transition function is specified against the
//! mathematical rules in `model`.

use vstd::prelude::*;

use crate::amount::Amount;
use crate::model::{
    account_inv, chargeback_applied, chargeback_fits, deposit_applied, deposit_fits,
    dispute_applied, event_applied, event_fits, event_ok, inv,
    lemma_chargeback_preserves_invariant, lemma_deposit_preserves_invariant,
    lemma_dispute_preserves_invariant, lemma_resolve_preserves_invariant,
    lemma_withdrawal_preserves_invariant, new_account, resolve_applied, withdrawal_applied,
    ClientView, TransactionView,
};
use crate::transactions_info::TransactionsInfo;

verus! {

/// Identifier of an original transaction, unique per original transaction
/// within one input stream.
#[derive(Debug, Clone, Copy, PartialEq, Eq, Hash, Structural)]
pub struct TxId(u32);

impl View for TxId {
    type V = u32;

    closed spec fn view(&self) -> u32 {
        self.0
    }
}

impl TxId {
    pub fn new(id: u32) -> (r: TxId)
        ensures
            r@ == id,
    {
        TxId(id)
    }
}

/// Identifier of a client account.
#[derive(Debug, Clone, Copy, PartialEq, Eq, Hash, Structural)]
pub struct ClientID(u16);

impl View for ClientID {
    type V = u16;

    closed spec fn view(&self) -> u16 {
        self.0
    }
}

impl ClientID {
    pub fn new(id: u16) -> (r: ClientID)
        ensures
            r@ == id,
    {
        ClientID(id)
    }

    /// The identifier as its plain integer value.
    pub fn raw(&self) -> (r: u16)
        ensures
            r == self@,
    {
        self.0
    }
}

/// The kind tag carried by a decoded input record.
#[derive(Debug, Clone, Copy, PartialEq, Eq, Structural)]
pub enum TxType {
    Deposit,
    Withdrawal,
    Dispute,
    Resolve,
    Chargeback,
}

/// A retained transaction, or a dispute lifecycle marker.
///
/// `Deposit` and `Withdrawal` record an original transaction together with
/// its amount; `Dispute`, `Resolve` and `Chargeback` are the states a
/// disputed transaction moves through.
#[derive(Debug, Clone, Copy, PartialEq, Eq, Structural)]
pub enum Transaction {
    Deposit { amount: Amount },
    Withdrawal { amount: Amount },
    Dispute,
    Resolve,
    Chargeback,
}

impl View for Transaction {
    type V = TransactionView;

    open spec fn view(&self) -> TransactionView {
        match *self {
            Transaction::Deposit { amount } => TransactionView::Deposit { amount: amount@ },
            Transaction::Withdrawal { amount } => TransactionView::Withdrawal {
                amount: amount@,
            },
            Transaction::Dispute => TransactionView::Dispute,
            Transaction::Resolve => TransactionView::Resolve,
            Transaction::Chargeback => TransactionView::Chargeback,
        }
    }
}

/// One decoded input record: an event to apply to the ledger.
#[derive(Debug, Clone, Copy)]
pub struct TransactionTemplate {
    pub tx_type: TxType,
    pub client: ClientID,
    pub tx: TxId,
    pub amount: Option<Amount>,
}

/// A per-client account aggregate. `total` is maintained incrementally and
/// equals `available + held` after every applied event.
#[derive(Debug, Clone, Copy, PartialEq, Eq, Structural)]
pub struct Client {
    pub client: ClientID,
    pub available: Amount,
    pub held: Amount,
    pub total: Amount,
    pub locked: bool,
}

impl View for Client {
    type V = ClientView;

    open spec fn view(&self) -> ClientView {
        ClientView {
            client: self.client@,
            available: self.available@,
            held: self.held@,
            total: self.total@,
            locked: self.locked,
        }
    }
}

impl Client {
    /// A freshly created account: all balances zero, not locked.
    pub fn empty(client: ClientID) -> (c: Client)
        ensures
            c@ == new_account(client@),
    {
        Client {
            client: client,
            available: Amount::zero(),
            held: Amount::zero(),
            total: Amount::zero(),
            locked: false,
        }
    }

    pub fn create_with_values(
        client: ClientID,
        available: Amount,
        held: Amount,
        total: Amount,
        locked: bool,
    ) -> (c: Client)
        ensures
            c@ == (ClientView {
                client: client@,
                available: available@,
                held: held@,
                total: total@,
                locked: locked,
            }),
    {
        Client { client, available, held, total, locked }
    }

    /// Rounds every balance to `scale` fractional digits, half away from
    /// zero, for reporting.
    pub fn rescale(&mut self, scale: u32)
        requires
            crate::model::account_bounded(old(self)@),
        ensures
            final(self)@ == crate::model::rescaled_account(old(self)@, scale as nat),
    {
        self.available = self.available.round_to(scale);
        self.held = self.held.round_to(scale);
        self.total = self.total.round_to(scale);
    }
}

/// The only propagated failure: a deposit or withdrawal event that arrives
/// without the amount it requires.
#[derive(Debug, Clone, Copy, PartialEq, Eq, Structural)]
pub enum ErrorKind {
    InvalidInput,
}

/// Packs a transaction and client identifier into the single map key used
/// by the ledger store.
pub(crate) fn pack_key(tx: &TxId, client: &ClientID) -> (r: u64)
    ensures
        r == crate::model::key_of(*tx, *client),
{
    (tx.0 as u64) * 0x10000 + (client.0 as u64)
}

/// Credits the client's `available` and `total` with the event's amount and
/// retains the deposit for later disputes; an event without an amount is the
/// one propagated failure. Applies even to a locked account.
pub fn deposit(transaction: TransactionTemplate, transactions_info: &mut TransactionsInfo) -> (r:
    Result<(), ErrorKind>)
    requires
        old(transactions_info).wf(),
        inv(old(transactions_info)@),
        deposit_fits(old(transactions_info)@, transaction.client, transaction.amount),
    ensures
        final(transactions_info).wf(),
        inv(final(transactions_info)@),
        match transaction.amount {
            Some(a) => r == Ok::<(), ErrorKind>(()) && final(transactions_info)@
                == deposit_applied(
                old(transactions_info)@,
                transaction.client,
                transaction.tx,
                a@,
            ),
            None => r == Err::<(), ErrorKind>(ErrorKind::InvalidInput) && final(transactions_info)@ == old(transactions_info)@,
        },
{
    match transaction.amount {
        Some(amount) => {
            let ghost s0 = transactions_info@;
            let mut client = transactions_info.get_clients_entry(transaction.client);
            proof {
                if s0.accounts.contains_key(transaction.client@) {
                    assert(account_inv(s0.accounts[transaction.client@], transaction.client@));
                }
            }
            client.available = client.available.plus(amount);
            client.total = client.total.plus(amount);
            transactions_info.set_client(client);
            transactions_info.insert_transaction(
                (transaction.tx, transaction.client),
                Transaction::Deposit { amount },
            );
            proof {
                let sd = deposit_applied(s0, transaction.client, transaction.tx, amount@);
                assert(transactions_info@.accounts =~= sd.accounts);
                assert(transactions_info@ =~= sd);
                lemma_deposit_preserves_invariant(
                    s0,
                    transaction.client,
                    transaction.tx,
                    amount@,
                );
            }
            Ok(())
        },
        None => Err(ErrorKind::InvalidInput),
    }
}

/// Debits the client's `available` and `total` with the event's amount and
/// retains the withdrawal, but only when `available` covers it; with
/// insufficient funds the event is silently dropped and nothing is
/// retained. An event without an amount is the one propagated failure.
pub fn withdrawal(transaction: TransactionTemplate, transactions_info: &mut TransactionsInfo) -> (r:
    Result<(), ErrorKind>)
    requires
        old(transactions_info).wf(),
        inv(old(transactions_info)@),
    ensures
        final(transactions_info).wf(),
        inv(final(transactions_info)@),
        match transaction.amount {
            Some(a) => r == Ok::<(), ErrorKind>(()) && final(transactions_info)@
                == withdrawal_applied(
                old(transactions_info)@,
                transaction.client,
                transaction.tx,
                a@,
            ),
            None => r == Err::<(), ErrorKind>(ErrorKind::InvalidInput) && final(transactions_info)@ == old(transactions_info)@,
        },
{
    match transaction.amount {
        Some(amount) => {
            let ghost s0 = transactions_info@;
            let mut client = transactions_info.get_clients_entry(transaction.client);
            proof {
                if s0.accounts.contains_key(transaction.client@) {
                    assert(account_inv(s0.accounts[transaction.client@], transaction.client@));
                }
            }
            if client.available.ge(amount) {
                client.available = client.available.minus(amount);
                client.total = client.total.minus(amount);
                transactions_info.set_client(client);
                transactions_info.insert_transaction(
                    (transaction.tx, transaction.client),
                    Transaction::Withdrawal { amount },
                );
            }
            proof {
                let sw = withdrawal_applied(s0, transaction.client, transaction.tx, amount@);
                assert(transactions_info@.accounts =~= sw.accounts);
                assert(transactions_info@ =~= sw);
                lemma_withdrawal_preserves_invariant(
                    s0,
                    transaction.client,
                    transaction.tx,
                    amount@,
                );
            }
            Ok(())
        },
        None => Err(ErrorKind::InvalidInput),
    }
}

/// Opens a dispute on a retained transaction. For a deposit, moves the
/// disputed amount, clamped to what is still available, from `available` to
/// `held`; for a withdrawal, only marks the transaction. An unknown
/// transaction or one already in the dispute lifecycle is silently ignored.
pub fn dispute(transaction: TransactionTemplate, transactions_info: &mut TransactionsInfo) -> (r:
    Result<(), ErrorKind>)
    requires
        old(transactions_info).wf(),
        inv(old(transactions_info)@),
    ensures
        final(transactions_info).wf(),
        inv(final(transactions_info)@),
        r == Ok::<(), ErrorKind>(()),
        final(transactions_info)@ == dispute_applied(
            old(transactions_info)@,
            transaction.client,
            transaction.tx,
        ),
{
    let ghost s0 = transactions_info@;
    let tx_and_client_ids = (transaction.tx, transaction.client);
    if !transactions_info.transactions_contains_key(&tx_and_client_ids)
        || transactions_info.disputes_contains_key(&tx_and_client_ids) {
        return Ok(());
    }
    let maybe_transaction = transactions_info.get_transaction(&tx_and_client_ids);
    match maybe_transaction {
        Some(Transaction::Deposit { amount }) => {
            let mut client = transactions_info.get_clients_entry(transaction.client);
            proof {
                if s0.accounts.contains_key(transaction.client@) {
                    assert(account_inv(s0.accounts[transaction.client@], transaction.client@));
                }
            }
            let moved = client.available.min_with(amount);
            client.available = client.available.minus(moved);
            client.held = client.held.plus(moved);
            transactions_info.set_client(client);
            transactions_info.insert_dispute(tx_and_client_ids, Transaction::Dispute);
            proof {
                let sd = dispute_applied(s0, transaction.client, transaction.tx);
                assert(transactions_info@.accounts =~= sd.accounts);
                assert(transactions_info@ =~= sd);
            }
        },
        Some(Transaction::Withdrawal { .. }) => {
            transactions_info.insert_dispute(tx_and_client_ids, Transaction::Dispute);
            proof {
                let sd = dispute_applied(s0, transaction.client, transaction.tx);
                assert(transactions_info@ =~= sd);
            }
        },
        _ => (),
    }
    proof {
        lemma_dispute_preserves_invariant(s0, transaction.client, transaction.tx);
    }
    Ok(())
}

/// Closes a dispute whose state is exactly `Dispute`. For a deposit,
/// releases the held amount, clamped to what is held, back to `available`;
/// for a withdrawal, only advances the marker. Anything out of sequence is
/// silently ignored.
pub fn resolve(transaction: TransactionTemplate, transactions_info: &mut TransactionsInfo) -> (r:
    Result<(), ErrorKind>)
    requires
        old(transactions_info).wf(),
        inv(old(transactions_info)@),
    ensures
        final(transactions_info).wf(),
        inv(final(transactions_info)@),
        r == Ok::<(), ErrorKind>(()),
        final(transactions_info)@ == resolve_applied(
            old(transactions_info)@,
            transaction.client,
            transaction.tx,
        ),
{
    let ghost s0 = transactions_info@;
    let tx_and_client_ids = (transaction.tx, transaction.client);
    if !transactions_info.transactions_contains_key(&tx_and_client_ids) {
        return Ok(());
    }
    let disputed = match transactions_info.get_dispute(&tx_and_client_ids) {
        Some(Transaction::Dispute) => true,
        _ => false,
    };
    if !disputed {
        return Ok(());
    }
    let maybe_transaction = transactions_info.get_transaction(&tx_and_client_ids);
    match maybe_transaction {
        Some(Transaction::Deposit { amount }) => {
            let mut client = transactions_info.get_clients_entry(transaction.client);
            proof {
                if s0.accounts.contains_key(transaction.client@) {
                    assert(account_inv(s0.accounts[transaction.client@], transaction.client@));
                }
            }
            let moved = client.held.min_with(amount);
            client.available = client.available.plus(moved);
            client.held = client.held.minus(moved);
            transactions_info.set_client(client);
            transactions_info.insert_dispute(tx_and_client_ids, Transaction::Resolve);
            proof {
                let sr = resolve_applied(s0, transaction.client, transaction.tx);
                assert(transactions_info@.accounts =~= sr.accounts);
                assert(transactions_info@ =~= sr);
            }
        },
        Some(Transaction::Withdrawal { .. }) => {
            transactions_info.insert_dispute(tx_and_client_ids, Transaction::Resolve);
            proof {
                let sr = resolve_applied(s0, transaction.client, transaction.tx);
                assert(transactions_info@ =~= sr);
            }
        },
        _ => (),
    }
    proof {
        lemma_resolve_preserves_invariant(s0, transaction.client, transaction.tx);
    }
    Ok(())
}

/// Reverses a transaction whose dispute state is exactly `Resolve`. For a
/// deposit, removes the amount, clamped to what is available, from the
/// account and locks it; for a withdrawal, returns the amount without
/// locking. Anything out of sequence is silently ignored.
pub fn chargeback(transaction: TransactionTemplate, transactions_info: &mut TransactionsInfo) -> (r:
    Result<(), ErrorKind>)
    requires
        old(transactions_info).wf(),
        inv(old(transactions_info)@),
        chargeback_fits(old(transactions_info)@, transaction.client, transaction.tx),
    ensures
        final(transactions_info).wf(),
        inv(final(transactions_info)@),
        r == Ok::<(), ErrorKind>(()),
        final(transactions_info)@ == chargeback_applied(
            old(transactions_info)@,
            transaction.client,
            transaction.tx,
        ),
{
    let ghost s0 = transactions_info@;
    let tx_and_client_ids = (transaction.tx, transaction.client);
    if !transactions_info.transactions_contains_key(&tx_and_client_ids) {
        return Ok(());
    }
    let resolved = match transactions_info.get_dispute(&tx_and_client_ids) {
        Some(Transaction::Resolve) => true,
        _ => false,
    };
    if !resolved {
        return Ok(());
    }
    let maybe_transaction = transactions_info.get_transaction(&tx_and_client_ids);
    match maybe_transaction {
        Some(Transaction::Deposit { amount }) => {
            let mut client = transactions_info.get_clients_entry(transaction.client);
            proof {
                if s0.accounts.contains_key(transaction.client@) {
                    assert(account_inv(s0.accounts[transaction.client@], transaction.client@));
                }
            }
            let moved = client.available.min_with(amount);
            client.available = client.available.minus(moved);
            client.total = client.total.minus(moved);
            client.locked = true;
            transactions_info.set_client(client);
            transactions_info.insert_dispute(tx_and_client_ids, Transaction::Chargeback);
            proof {
                let sc = chargeback_applied(s0, transaction.client, transaction.tx);
                assert(transactions_info@.accounts =~= sc.accounts);
                assert(transactions_info@ =~= sc);
            }
        },
        Some(Transaction::Withdrawal { amount }) => {
            let mut client = transactions_info.get_clients_entry(transaction.client);
            proof {
                if s0.accounts.contains_key(transaction.client@) {
                    assert(account_inv(s0.accounts[transaction.client@], transaction.client@));
                }
            }
            client.available = client.available.plus(amount);
            client.total = client.total.plus(amount);
            transactions_info.set_client(client);
            transactions_info.insert_dispute(tx_and_client_ids, Transaction::Chargeback);
            proof {
                let sc = chargeback_applied(s0, transaction.client, transaction.tx);
                assert(transactions_info@.accounts =~= sc.accounts);
                assert(transactions_info@ =~= sc);
            }
        },
        _ => (),
    }
    proof {
        lemma_chargeback_preserves_invariant(s0, transaction.client, transaction.tx);
    }
    Ok(())
}

/// Applies one event to the ledger, dispatching on its kind. Returns
/// `Err(InvalidInput)` exactly when a deposit or withdrawal arrives without
/// an amount, leaving the ledger unchanged; every dispute-workflow rule
/// violation is a silent no-op inside the applied transition.
pub fn process_event(transaction: TransactionTemplate, transactions_info: &mut TransactionsInfo)
    -> (r: Result<(), ErrorKind>)
    requires
        old(transactions_info).wf(),
        inv(old(transactions_info)@),
        event_fits(old(transactions_info)@, transaction),
    ensures
        final(transactions_info).wf(),
        inv(final(transactions_info)@),
        event_ok(transaction) ==> r == Ok::<(), ErrorKind>(()) && final(transactions_info)@
            == event_applied(old(transactions_info)@, transaction),
        !event_ok(transaction) ==> r == Err::<(), ErrorKind>(ErrorKind::InvalidInput) && final(transactions_info)@ == old(transactions_info)@,
{
    match transaction.tx_type {
        TxType::Deposit => deposit(transaction, transactions_info),
        TxType::Withdrawal => withdrawal(transaction, transactions_info),
        TxType::Dispute => dispute(transaction, transactions_info),
        TxType::Resolve => resolve(transaction, transactions_info),
        TxType::Chargeback => chargeback(transaction, transactions_info),
    }
}

/// Whether applying this event keeps every balance representable, decided
/// by the same lookups the transition itself makes. A caller that cannot
/// establish `event_fits` can test it with this before processing.
pub fn check_event_fits(transactions_info: &TransactionsInfo, transaction: &TransactionTemplate)
    -> (r: bool)
    ensures
        r == event_fits(transactions_info@, *transaction),
{
    match transaction.tx_type {
        TxType::Deposit => match transaction.amount {
            Some(a) => {
                let total = match transactions_info.get_client(&transaction.client) {
                    Some(c) => c.total,
                    None => Amount::zero(),
                };
                match total.units.checked_add(a.units) {
                    Some(s) => s <= crate::amount::MAX_UNITS,
                    None => false,
                }
            },
            None => true,
        },
        TxType::Chargeback => {
            let tx_and_client_ids = (transaction.tx, transaction.client);
            if !transactions_info.transactions_contains_key(&tx_and_client_ids) {
                return true;
            }
            let resolved = match transactions_info.get_dispute(&tx_and_client_ids) {
                Some(Transaction::Resolve) => true,
                _ => false,
            };
            if !resolved {
                return true;
            }
            match transactions_info.get_transaction(&tx_and_client_ids) {
                Some(Transaction::Withdrawal { amount }) => {
                    let total = match transactions_info.get_client(&transaction.client) {
                        Some(c) => c.total,
                        None => Amount::zero(),
                    };
                    match total.units.checked_add(amount.units) {
                        Some(s) => s <= crate::amount::MAX_UNITS,
                        None => false,
                    }
                },
                _ => true,
            }
        },
        _ => true,
    }
}

} // verus!
