//! A verified ledger core: per-account balances that may never fall below a
//! negative credit limit, an append-only journal of committed operations, and
//! a bounded newest-first history view.

pub mod rules;
pub mod ledger;
mod clock;
pub mod laws;
