//! Events the per-transaction updater emits; the embedding program forwards
//! them to whatever sink it serves.
use vstd::prelude::*;

use crate::RuneId;

verus! {

#[derive(Debug)]
pub enum Event {
    RuneEtched { block_height: u32, txid: Vec<u8>, rune_id: RuneId },
    RuneMinted { block_height: u32, txid: Vec<u8>, rune_id: RuneId, amount: u128 },
    RuneTransferred {
        block_height: u32,
        txid: Vec<u8>,
        rune_id: RuneId,
        amount: u128,
        vout: u32,
    },
    RuneBurned { block_height: u32, txid: Vec<u8>, rune_id: RuneId, amount: u128 },
}

} // verus!
