//! A ledger core that replays per-client financial operations: an exact
//! fixed-point money type, a history of settled transactions, and the
//! per-account state machine that applies each operation.
pub mod account;
pub mod decimal;
pub mod laws;
pub mod ledger;
pub mod text;
