//! A per-column last-write-wins replicated record store.
//!
//! Every replica keeps only its current state. Each column of each record
//! carries a small version stamp, and replicas converge by exchanging the
//! stamped columns and keeping, cell by cell, the one that ranks highest.
//!
//! The executable side is in `clock`, `version`, `columns`, `record`,
//! `change`, `replica` and `sync`. Its contracts are stated over the
//! mathematical state of `state`. What holds of that state is proved in
//! `invariants` (the shape of every state), `laws` (idempotence, permanent
//! tombstones), `convergence` (the order of a batch does not matter, nor a
//! safe watermark), `join` (two replicas converge) and `schedule` (any
//! number of replicas converge under any schedule of pulls).

pub mod keys;
pub mod clock;
pub mod version;
pub mod columns;
pub mod record;
pub mod change;
pub mod state;
pub mod invariants;
pub mod laws;
pub mod convergence;
pub mod join;
pub mod schedule;
mod walk;
pub mod replica;
pub mod sync;
