//! The read-only reporting view: per-rune supply, counters and authority
//! details. Opening the index and printing belong to the embedding program.
use vstd::prelude::*;

use crate::RuneId;
use crate::compact_script::CompactScript;
use crate::entry::{RuneEntry, SpacedRune, Terms};
use crate::kv::list_view;
use crate::store::Store;

verus! {

/// The two per-rune authority switches, as the etching terms fixed them.
#[derive(Debug, Copy, Clone, PartialEq, Eq, Structural)]
pub struct AuthorityFlags {
    pub allow_minting: bool,
    pub allow_blacklisting: bool,
}

/// A compact script with its reconstructed scriptPubKey rendered as hex.
/// Address rendering needs a network and stays with the embedding program.
#[derive(Debug)]
pub struct ScriptDetail {
    pub compact: CompactScript,
    pub script_pubkey: Option<Vec<char>>,
}

/// The hex digit for a value below sixteen.
pub open spec fn spec_hex_digit(v: u8) -> char {
    if v < 10 {
        (v + 48) as char
    } else {
        (v + 87) as char
    }
}

/// Lowercase hex of a byte sequence, two digits per byte.
pub open spec fn spec_hex_of(s: Seq<u8>) -> Seq<char>
    decreases s.len(),
{
    if s.len() == 0 {
        Seq::empty()
    } else {
        spec_hex_of(s.drop_last()) + seq![
            spec_hex_digit(s.last() / 16),
            spec_hex_digit(s.last() % 16),
        ]
    }
}

fn hex_digit(v: u8) -> (r: char)
    requires
        v < 16,
    ensures
        r == spec_hex_digit(v),
{
    if v < 10 {
        (v + 48) as char
    } else {
        (v + 87) as char
    }
}

/// Renders bytes as lowercase hex, two digits per byte.
pub fn hex_of(s: &Vec<u8>) -> (r: Vec<char>)
    ensures
        r@ == spec_hex_of(s@),
{
    let mut out: Vec<char> = Vec::new();
    let n = s.len();
    let mut i: usize = 0;
    while i < n
        invariant
            i <= n,
            n == s@.len(),
            out@ == spec_hex_of(s@.take(i as int)),
        decreases n - i,
    {
        let b = s[i];
        out.push(hex_digit(b / 16));
        out.push(hex_digit(b % 16));
        proof {
            assert(s@.take(i + 1).drop_last() =~= s@.take(i as int));
            assert(s@.take(i + 1).last() == s@[i as int]);
            assert(out@ =~= spec_hex_of(s@.take(i + 1)));
        }
        i = i + 1;
    }
    proof {
        assert(s@.take(n as int) =~= s@);
    }
    out
}

impl ScriptDetail {
    /// Builds the detail view of one compact script.
    pub fn from_compact(compact: CompactScript) -> (r: ScriptDetail)
        ensures
            r.compact == compact,
            match crate::compact_script::spec_to_script(compact.kind, compact.body@) {
                Some(s) => (match r.script_pubkey {
                    Some(h) => h@ == spec_hex_of(s),
                    None => false,
                }),
                None => r.script_pubkey is None,
            },
    {
        let script = compact.to_script();
        let script_pubkey = match &script {
            Some(s) => Some(hex_of(s)),
            None => None,
        };
        ScriptDetail { compact, script_pubkey }
    }
}

/// The per-rune reporting record.
#[derive(Debug)]
pub struct RuneInfo {
    pub block: u64,
    pub burned: u128,
    pub divisibility: u8,
    /// Txid of the etching transaction, 32 bytes.
    pub etching: Vec<u8>,
    pub id: RuneId,
    pub mints: u128,
    pub number: u64,
    pub premine: u128,
    pub rune: SpacedRune,
    pub supply: u128,
    pub symbol: Option<char>,
    pub terms: Option<Terms>,
    pub timestamp: u64,
    pub turbo: bool,
    pub tx: u32,
    pub authority_flags: Option<AuthorityFlags>,
    pub supply_extra: Option<u128>,
    pub minter_count: Option<u32>,
    pub blacklist_count: Option<u32>,
}

/// The flags a rune's terms grant.
pub open spec fn spec_flags_of(terms: Option<Terms>) -> AuthorityFlags {
    AuthorityFlags {
        allow_minting: match terms {
            Some(t) => t.allow_minting,
            None => false,
        },
        allow_blacklisting: match terms {
            Some(t) => t.allow_blacklisting,
            None => false,
        },
    }
}

/// Number of stored roster entries, saturated at the counter's range.
pub open spec fn spec_count_of(l: Seq<Seq<u8>>) -> u32 {
    if l.len() > u32::MAX {
        u32::MAX
    } else {
        l.len() as u32
    }
}

fn count_of(l: Option<&Vec<Vec<u8>>>) -> (r: u32)
    ensures
        r == spec_count_of(
            match l {
                Some(v) => list_view(v@),
                None => Seq::empty(),
            },
        ),
{
    match l {
        Some(v) => {
            if v.len() > u32::MAX as usize {
                u32::MAX
            } else {
                v.len() as u32
            }
        },
        None => 0,
    }
}

/// Builds the reporting record of one rune from its domain entry and the
/// stored authority state.
pub fn rune_info(
    entry: &RuneEntry,
    id: RuneId,
    supply_extra: Option<u128>,
    minter_count: u32,
    blacklist_count: u32,
) -> (r: RuneInfo)
    ensures
        r.block == entry.block,
        r.burned == entry.burned,
        r.divisibility == entry.divisibility,
        r.etching@ == entry.etching@,
        r.id == id,
        r.mints == entry.mints,
        r.number == entry.number,
        r.premine == entry.premine,
        r.rune == entry.spaced_rune,
        r.supply == entry.spec_supply(),
        r.symbol == entry.symbol,
        r.terms == entry.terms,
        r.timestamp == entry.timestamp,
        r.turbo == entry.turbo,
        r.tx == id.tx,
        r.authority_flags == Some(spec_flags_of(entry.terms)),
        r.supply_extra == supply_extra,
        r.minter_count == Some(minter_count),
        r.blacklist_count == Some(blacklist_count),
{
    let allow_minting = match &entry.terms {
        Some(t) => t.allow_minting,
        None => false,
    };
    let allow_blacklisting = match &entry.terms {
        Some(t) => t.allow_blacklisting,
        None => false,
    };
    RuneInfo {
        block: entry.block,
        burned: entry.burned,
        divisibility: entry.divisibility,
        etching: crate::bytes::clone_bytes(&entry.etching),
        id,
        mints: entry.mints,
        number: entry.number,
        premine: entry.premine,
        rune: entry.spaced_rune,
        supply: entry.supply(),
        symbol: entry.symbol,
        terms: entry.terms,
        timestamp: entry.timestamp,
        turbo: entry.turbo,
        tx: id.tx,
        authority_flags: Some(AuthorityFlags { allow_minting, allow_blacklisting }),
        supply_extra,
        minter_count: Some(minter_count),
        blacklist_count: Some(blacklist_count),
    }
}

/// The reporting output: one record per rune, in the order the entries
/// table stores them. Display ordering belongs to the embedding program.
#[derive(Debug)]
pub struct Output {
    pub runes: Vec<(u128, RuneInfo)>,
}

/// Builds the reporting output for every etched rune.
pub fn run(store: &Store) -> (r: Output)
    requires
        store.wf(),
    ensures
        r.runes@.len() == store.entries.entries@.len(),
        forall|j: int|
            0 <= j < r.runes@.len() ==> {
                let (id, entry) = #[trigger] store.entries.entries@[j];
                &&& r.runes@[j].0 == entry.spaced_rune.rune.0
                &&& r.runes@[j].1.id == id
                &&& r.runes@[j].1.supply == entry.spec_supply()
                &&& r.runes@[j].1.premine == entry.premine
                &&& r.runes@[j].1.burned == entry.burned
                &&& r.runes@[j].1.authority_flags == Some(spec_flags_of(entry.terms))
                &&& r.runes@[j].1.supply_extra == store.supply_extra.spec_get(id)
                &&& r.runes@[j].1.minter_count == Some(
                    spec_count_of(store.minters.spec_multi(id)),
                )
                &&& r.runes@[j].1.blacklist_count == Some(
                    spec_count_of(store.blacklist.spec_multi(id)),
                )
            },
{
    let mut runes: Vec<(u128, RuneInfo)> = Vec::new();
    let n = store.entries.entries.len();
    let mut j: usize = 0;
    while j < n
        invariant
            j <= n,
            n == store.entries.entries@.len(),
            store.wf(),
            runes@.len() == j,
            forall|q: int|
                0 <= q < j ==> {
                    let (id, entry) = #[trigger] store.entries.entries@[q];
                    &&& runes@[q].0 == entry.spaced_rune.rune.0
                    &&& runes@[q].1.id == id
                    &&& runes@[q].1.supply == entry.spec_supply()
                    &&& runes@[q].1.premine == entry.premine
                    &&& runes@[q].1.burned == entry.burned
                    &&& runes@[q].1.authority_flags == Some(spec_flags_of(entry.terms))
                    &&& runes@[q].1.supply_extra == store.supply_extra.spec_get(id)
                    &&& runes@[q].1.minter_count == Some(
                        spec_count_of(store.minters.spec_multi(id)),
                    )
                    &&& runes@[q].1.blacklist_count == Some(
                        spec_count_of(store.blacklist.spec_multi(id)),
                    )
                },
        decreases n - j,
    {
        let id = store.entries.entries[j].0;
        let entry = &store.entries.entries[j].1;
        let supply_extra: Option<u128> = match store.supply_extra.get(id) {
            Some(v) => Some(*v),
            None => None,
        };
        let minter_count = count_of(store.minters.get(id));
        let blacklist_count = count_of(store.blacklist.get(id));
        proof {
            assert(store.minters.spec_multi(id) == (match store.minters.spec_get(id) {
                Some(l) => list_view(l@),
                None => Seq::empty(),
            }));
        }
        let info = rune_info(entry, id, supply_extra, minter_count, blacklist_count);
        runes.push((entry.spaced_rune.rune.0, info));
        j = j + 1;
    }
    Output { runes }
}

} // verus!
