use vstd::prelude::*;

pub mod address;
pub mod builder;
pub mod combined_txn;
pub mod config;
pub mod index;
pub mod laws;
pub mod digests;
pub mod manager;
pub mod multi_sender_txn;
pub mod orchestrator;
pub mod runestone;
pub mod signer;
pub mod transaction;
pub mod transaction_handler;
pub mod txmodel;
pub mod utils;
pub mod encoding;
pub mod types;

verus! {

/// Dust threshold in satoshis: candidate change outputs at or below this
/// value are dropped and their value is absorbed into the fee.
pub const DUST_THRESHOLD: u64 = 1000;

/// Default number of satoshis attached to an output that carries a rune
/// balance.
pub const DEFAULT_POSTAGE: u64 = 10000;

pub fn dust_threshold() -> (r: u64)
    ensures
        r == DUST_THRESHOLD,
{
    DUST_THRESHOLD
}

} // verus!
