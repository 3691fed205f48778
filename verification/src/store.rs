//! The persistent state of the protocol, as the core sees it: the tables of
//! one transactional scope. The embedding program loads them before a block
//! and commits them atomically afterwards.
use vstd::prelude::*;

use crate::entry::RuneEntry;
use crate::kv::{NameTable, OutPointTable, RuneTable};

verus! {

pub struct Store {
    /// OutPoint -> sorted list of (rune, amount); absent when the outpoint
    /// carries no balance or was consumed.
    pub outpoint_balances: OutPointTable,
    /// RuneId -> authority flag bits (low three bits); absence means empty.
    pub authority_flags: RuneTable<u8>,
    /// RuneId -> authority scripts blob `[presence, (kind, len, body)*]` in
    /// fixed order Mint, Blacklist, Master.
    pub authority_scripts: RuneTable<Vec<u8>>,
    /// RuneId ->* minter entries `[kind][body]`.
    pub minters: RuneTable<Vec<Vec<u8>>>,
    /// RuneId ->* blacklist entries `[kind][body]`.
    pub blacklist: RuneTable<Vec<Vec<u8>>>,
    /// RuneId -> cumulative authority-minted supply; written only when
    /// nonzero.
    pub supply_extra: RuneTable<u128>,
    /// RuneId -> domain entry.
    pub entries: RuneTable<RuneEntry>,
    /// Rune name -> id of its etching.
    pub rune_to_id: NameTable,
    /// Count of etched runes.
    pub runes: u64,
    /// Count of reserved names allocated to unnamed etchings.
    pub reserved_runes: u64,
}

impl Store {
    pub open spec fn wf(self) -> bool {
        &&& self.outpoint_balances.wf()
        &&& self.authority_flags.wf()
        &&& self.authority_scripts.wf()
        &&& self.minters.wf()
        &&& self.blacklist.wf()
        &&& self.supply_extra.wf()
        &&& self.entries.wf()
    }

    /// An empty store: no runes, no balances.
    pub fn new() -> (r: Self)
        ensures
            r.wf(),
            forall|k: (Seq<u8>, u32)| r.outpoint_balances.spec_row(k) is None,
            forall|id: crate::RuneId| r.authority_flags.spec_get(id) is None,
            forall|id: crate::RuneId| r.authority_scripts.spec_get(id) is None,
            forall|id: crate::RuneId| r.minters.spec_get(id) is None,
            forall|id: crate::RuneId| r.blacklist.spec_get(id) is None,
            forall|id: crate::RuneId| r.supply_extra.spec_get(id) is None,
            forall|id: crate::RuneId| r.entries.spec_get(id) is None,
            forall|n: u128| r.rune_to_id.spec_get(n) is None,
            r.runes == 0,
            r.reserved_runes == 0,
    {
        Store {
            outpoint_balances: OutPointTable::new(),
            authority_flags: RuneTable::new(),
            authority_scripts: RuneTable::new(),
            minters: RuneTable::new(),
            blacklist: RuneTable::new(),
            supply_extra: RuneTable::new(),
            entries: RuneTable::new(),
            rune_to_id: NameTable::new(),
            runes: 0,
            reserved_runes: 0,
        }
    }
}

} // verus!
