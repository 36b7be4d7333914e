//! Whitelist registration for a sealed-bid auction running in a
//! deterministic, ledger-replicated execution environment.
//!
//! An auction owner submits a batch of participant addresses together with
//! the derivation nonces and storage slots for their bid records. The
//! operation re-derives every record's deterministic storage address,
//! materializes each record (first touch or re-touch), and commits the whole
//! batch atomically: either every address becomes whitelisted or none does.

pub mod address;
pub mod derivation;
pub mod error;
pub mod state;
pub mod whitelist;
