//! An asset registry with per-asset deposits held in escrow, two-parent
//! genome crossover and a small ask/buy marketplace, together with the
//! balance ledger it draws deposits and payments from and a registry of
//! timestamped claims.

pub mod balances;
pub mod genome;
pub mod randomness;
pub mod kitties;
pub mod poe;
