//! Authority-extended rune indexing core.
//!
//! Deterministically processes each confirmed transaction of a block and
//! updates the state of an on-chain fungible-token protocol ("runes")
//! enriched with an authority model: mint authority, blacklist authority,
//! master minter and delegated minters.
use vstd::prelude::*;

pub mod allocation;
pub mod authority_bits;
pub mod authority;
pub mod bloom;
pub mod bytes;
pub mod compact_script;
pub mod context;
pub mod entry;
pub mod executor;
pub mod events;
pub mod kv;
pub mod report;
pub mod runestone;
pub mod script_cache;
pub mod store;
pub mod sums;
pub mod tx;
pub mod updater;

verus! {

/// A rune is identified by the (block, tx-index) pair of its etching.
#[derive(Clone, Copy, PartialEq, Eq, Structural, Debug, Hash)]
pub struct RuneId {
    pub block: u64,
    pub tx: u32,
}

impl RuneId {
    /// The all-zero id, used by edicts to name the rune etched in this very
    /// transaction.
    pub fn default_id() -> (r: RuneId)
        ensures
            r == (RuneId { block: 0, tx: 0 }),
    {
        RuneId { block: 0, tx: 0 }
    }

    pub open spec fn is_default(self) -> bool {
        self.block == 0 && self.tx == 0
    }
}

/// Why processing a transaction was aborted; the embedding program discards
/// the whole block's state on such an error.
#[derive(Debug, Copy, Clone, PartialEq, Eq, Structural)]
pub enum UpdateError {
    /// A balance or counter would exceed its numeric range.
    Overflow,
    /// A compact script body does not fit the stored length byte.
    OversizedValue,
}

} // verus!
