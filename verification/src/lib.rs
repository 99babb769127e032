//! A transaction ledger: replays a log of financial events (deposits,
//! withdrawals, disputes, resolutions, chargebacks) against per-client
//! account balances and exposes the final balances.
//!
//! `amount` holds the exact fixed-point decimal type used for all balances;
//! `transactions` holds the event and account types and the per-event
//! transition functions; `transactions_info` holds the ledger store; `model`
//! holds the mathematical view of the store, the transition rules as spec
//! functions, and the proved laws about them.

pub mod amount;
pub mod model;
pub mod transactions;
pub mod transactions_info;
