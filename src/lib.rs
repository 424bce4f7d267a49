//! Replays blocks into a set of unspent transaction outputs and exports it.

pub mod codec;
pub mod dump;
pub mod export;
pub mod replay;
pub mod store;
pub mod utxo_set;
