//! The decoded runestone structure and its authority extensions.
//!
//! The byte-level codec (the varint tag/value stream inside the OP_RETURN
//! payload) lives outside the core; processing starts from these decoded
//! values.
use vstd::prelude::*;

use crate::RuneId;
use crate::authority_bits::AuthorityBits;
use crate::entry::{Rune, Terms};

verus! {

/// Moves `amount` of rune `id` to output `output`.
#[derive(Debug, Copy, Clone, PartialEq, Eq, Structural)]
pub struct Edict {
    pub id: RuneId,
    pub amount: u128,
    pub output: u32,
}

/// The etching carried by a runestone.
#[derive(Debug, Copy, Clone, PartialEq, Eq, Structural)]
pub struct Etching {
    pub divisibility: Option<u8>,
    pub premine: Option<u128>,
    pub rune: Option<Rune>,
    pub spacers: Option<u32>,
    pub symbol: Option<char>,
    pub terms: Option<Terms>,
    pub turbo: bool,
}

/// Transfers one or more authority roles to a new script.
#[derive(Debug)]
pub struct SetAuthority {
    pub authorities: AuthorityBits,
    /// Body of the new compact script; its kind is inherited from the current
    /// master authority.
    pub script_pubkey_compact: Vec<u8>,
}

/// Roster updates: minter additions and removals, blacklist mutations.
/// Every entry is `[kind_byte][body_bytes]`.
#[derive(Debug)]
pub struct AuthorityUpdates {
    pub add_minter: Option<Vec<Vec<u8>>>,
    pub remove_minter: Option<Vec<Vec<u8>>>,
    pub blacklist: Option<Vec<Vec<u8>>>,
    pub unblacklist: Option<Vec<Vec<u8>>>,
}

/// A well-formed decoded runestone.
#[derive(Debug)]
pub struct Runestone {
    pub edicts: Vec<Edict>,
    pub etching: Option<Etching>,
    pub mint: Option<RuneId>,
    pub pointer: Option<u32>,
    pub set_authority: Option<SetAuthority>,
    pub authority: Option<AuthorityUpdates>,
}

/// A malformed runestone; it burns the transaction's unallocated balance.
#[derive(Debug, Copy, Clone, PartialEq, Eq, Structural)]
pub struct Cenotaph {
    pub etching: Option<Rune>,
    pub mint: Option<RuneId>,
}

/// What deciphering a transaction yielded.
#[derive(Debug)]
pub enum Artifact {
    Runestone(Runestone),
    Cenotaph(Cenotaph),
}

impl Artifact {
    /// The mint target named by the artifact, if any.
    pub open spec fn spec_mint(self) -> Option<RuneId> {
        match self {
            Artifact::Runestone(r) => r.mint,
            Artifact::Cenotaph(c) => c.mint,
        }
    }

    pub fn mint(&self) -> (r: Option<RuneId>)
        ensures
            r == self.spec_mint(),
    {
        match self {
            Artifact::Runestone(r) => r.mint,
            Artifact::Cenotaph(c) => c.mint,
        }
    }
}

} // verus!
