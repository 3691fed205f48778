//! Per-transaction orchestration: commitment checking, open mints, etching,
//! the cenotaph burn and the final balance writes.
use vstd::prelude::*;

use crate::RuneId;
use crate::UpdateError;
use crate::allocation::calculate_unallocated;
use crate::authority::{cache_ok, spec_supply_extra_of};
use crate::executor::process_runestone;
use crate::bytes::{bytes_eq, clone_bytes, extend_bytes};
use crate::compact_script::CompactScript;
use crate::context::AuthorityContextCache;
use crate::entry::{Rune, RuneEntry};
use crate::events::Event;
use crate::kv::{row_amt, row_sum, RuneTable};
use crate::script_cache::{NodeView, ScriptCache};
use crate::store::Store;
use crate::sums::{add_amount, amt, lemma_amt_is_row_amt, lemma_row_amt_snoc};
use crate::tx::{is_p2tr, spec_is_p2tr, Tx};

verus! {

/// A commit output must be buried this deep before its etching counts.
pub const COMMIT_CONFIRMATIONS: u32 = 6;

/// Whether input `i` commits to the given commitment bytes: its tapscript
/// leaf pushes the bytes, its prevout is a taproot output the node knows,
/// and the prevout's block is buried deep enough at `height`.
pub open spec fn spec_input_commits(node: NodeView, tx: Tx, i: int, c: Seq<u8>, height: u32) -> bool {
    &&& match tx.inputs@[i].leaf_pushes {
        Some(pushes) => exists|p: int| 0 <= p < pushes@.len() && (#[trigger] pushes@[p])@ == c,
        None => false,
    }
    &&& match node.spec_script(tx.inputs@[i].prevout.key()) {
        Some(s) => spec_is_p2tr(s),
        None => false,
    }
    &&& match node.spec_height(tx.inputs@[i].prevout.txid@) {
        Some(h) => h <= height && height - h + 1 >= COMMIT_CONFIRMATIONS,
        None => false,
    }
}

/// Whether some input of the transaction commits to the rune.
pub open spec fn spec_commits(node: NodeView, tx: Tx, rune: Rune, height: u32) -> bool {
    exists|i: int|
        0 <= i < tx.inputs@.len() && #[trigger] spec_input_commits(
            node,
            tx,
            i,
            Rune::spec_commitment(rune.0),
            height,
        )
}

/// Whether the transaction commits to the rune: some input's tapscript leaf
/// pushes the rune's commitment, that input spends a taproot output, and
/// the commit output is buried by at least `COMMIT_CONFIRMATIONS` blocks.
/// An input whose prevout the node does not answer for cannot commit.
pub fn tx_commits_to_rune(
    sc: &mut ScriptCache,
    node: &NodeView,
    tx: &Tx,
    rune: Rune,
    height: u32,
) -> (r: bool)
    requires
        old(sc).wf(),
        old(sc).coherent(*node),
    ensures
        final(sc).wf(),
        final(sc).max_bytes == old(sc).max_bytes,
        final(sc).coherent(*node),
        r == spec_commits(*node, *tx, rune, height),
{
    let commitment = rune.commitment();
    let ghost c = Rune::spec_commitment(rune.0);
    let n = tx.inputs.len();
    let mut i: usize = 0;
    while i < n
        invariant
            i <= n,
            n == tx.inputs@.len(),
            commitment@ == c,
            c == Rune::spec_commitment(rune.0),
            sc.wf(),
            sc.max_bytes == old(sc).max_bytes,
            sc.coherent(*node),
            forall|j: int| 0 <= j < i ==> !spec_input_commits(*node, *tx, j, c, height),
        decreases n - i,
    {
        let input = &tx.inputs[i];
        proof {
            assert(*input == tx.inputs@[i as int]);
        }
        let mut pushed = false;
        match &input.leaf_pushes {
            Some(pushes) => {
                let pn = pushes.len();
                let mut p: usize = 0;
                while p < pn
                    invariant
                        p <= pn,
                        pn == pushes@.len(),
                        commitment@ == c,
                        pushed == exists|q: int| 0 <= q < p && (#[trigger] pushes@[q])@ == c,
                    decreases pn - p,
                {
                    if bytes_eq(&pushes[p], &commitment) {
                        pushed = true;
                        proof {
                            assert(pushes@[p as int]@ == c);
                        }
                    }
                    p = p + 1;
                }
            },
            None => {},
        }
        if pushed {
            let fetched = sc.get_script_pubkey(node, &input.prevout.txid, input.prevout.vout);
            let taproot = match &fetched {
                Some(script) => is_p2tr(script),
                None => false,
            };
            if taproot {
                match node.height_of(&input.prevout.txid) {
                    Some(h) => {
                        if h <= height && (height as u64) - (h as u64) + 1 >= (
                        COMMIT_CONFIRMATIONS as u64) {
                            proof {
                                assert(spec_input_commits(*node, *tx, i as int, c, height));
                            }
                            return true;
                        }
                    },
                    None => {},
                }
            }
        }
        proof {
            assert(!spec_input_commits(*node, *tx, i as int, c, height));
        }
        i = i + 1;
    }
    false
}

/// The initial authority-scripts blob: all three slots marked present, each
/// holding the etcher's compact script.
pub open spec fn spec_initial_blob(kind_byte: u8, body: Seq<u8>) -> Seq<u8> {
    let slot = seq![kind_byte, body.len() as u8] + body;
    seq![7u8] + slot + slot + slot
}

/// Builds the blob that seeds every authority slot with one compact script.
pub fn build_initial_authority_scripts_blob(compact: &CompactScript) -> (r: Vec<u8>)
    requires
        1 <= compact.body@.len() <= 255,
    ensures
        r@ == spec_initial_blob(compact.kind.spec_byte(), compact.body@),
{
    let mut blob: Vec<u8> = Vec::new();
    blob.push(7);
    let mut i: usize = 0;
    while i < 3
        invariant
            i <= 3,
            1 <= compact.body@.len() <= 255,
            blob@ == seq![7u8] + (if i >= 1 {
                seq![compact.kind.spec_byte(), compact.body@.len() as u8] + compact.body@
            } else {
                Seq::empty()
            }) + (if i >= 2 {
                seq![compact.kind.spec_byte(), compact.body@.len() as u8] + compact.body@
            } else {
                Seq::empty()
            }) + (if i >= 3 {
                seq![compact.kind.spec_byte(), compact.body@.len() as u8] + compact.body@
            } else {
                Seq::empty()
            }),
        decreases 3 - i,
    {
        blob.push(compact.kind.kind_byte());
        blob.push(compact.body.len() as u8);
        extend_bytes(&mut blob, &compact.body);
        proof {
            assert(blob@ =~= seq![7u8] + (if i + 1 >= 1 {
                seq![compact.kind.spec_byte(), compact.body@.len() as u8] + compact.body@
            } else {
                Seq::empty()
            }) + (if i + 1 >= 2 {
                seq![compact.kind.spec_byte(), compact.body@.len() as u8] + compact.body@
            } else {
                Seq::empty()
            }) + (if i + 1 >= 3 {
                seq![compact.kind.spec_byte(), compact.body@.len() as u8] + compact.body@
            } else {
                Seq::empty()
            }));
        }
        i = i + 1;
    }
    proof {
        assert(blob@ =~= spec_initial_blob(compact.kind.spec_byte(), compact.body@));
    }
    blob
}

/// Credits an open mint: when the artifact names a rune whose terms allow a
/// mint at this height, the mint counter advances, the amount joins the
/// unallocated balance and a mint event is emitted.
pub fn process_mint(
    store: &mut Store,
    height: u32,
    txid: &Vec<u8>,
    mint: Option<RuneId>,
    unallocated: &mut RuneTable<u128>,
    events: &mut Vec<Event>,
) -> (r: Result<(), UpdateError>)
    requires
        old(store).wf(),
        old(unallocated).wf(),
    ensures
        final(store).wf(),
        final(unallocated).wf(),
        final(store).outpoint_balances == old(store).outpoint_balances,
        final(store).authority_flags == old(store).authority_flags,
        final(store).authority_scripts == old(store).authority_scripts,
        final(store).minters == old(store).minters,
        final(store).blacklist == old(store).blacklist,
        final(store).supply_extra == old(store).supply_extra,
        final(store).rune_to_id == old(store).rune_to_id,
        final(store).runes == old(store).runes,
        final(store).reserved_runes == old(store).reserved_runes,
        ({
            let no_mint = {
                ||| mint is None
                ||| (mint matches Some(id) && old(store).entries.spec_get(id) is None)
                ||| (mint matches Some(id) && old(store).entries.spec_get(id) matches Some(e)
                    && e.spec_mintable(height as u64) is Err)
            };
            &&& no_mint ==> r == Ok::<(), UpdateError>(()) && *final(unallocated)
                == *old(unallocated) && (forall|k: RuneId|
                final(store).entries.spec_get(k) == old(store).entries.spec_get(k))
                && final(events)@ == old(events)@
            &&& mint matches Some(id) ==> old(store).entries.spec_get(id) matches Some(e)
                ==> e.spec_mintable(height as u64) matches Ok(amount) ==> {
                &&& (r is Err) <==> amt(*old(unallocated), id) + amount > u128::MAX
                &&& r is Ok ==> {
                    &&& final(store).entries.spec_get(id) == Some(
                        RuneEntry { mints: (e.mints + 1) as u128, ..e },
                    )
                    &&& forall|k: RuneId|
                        k != id ==> final(store).entries.spec_get(k) == old(
                            store,
                        ).entries.spec_get(k)
                    &&& amt(*final(unallocated), id) == amt(*old(unallocated), id) + amount
                    &&& forall|k: RuneId|
                        k != id ==> final(unallocated).spec_get(k) == old(
                            unallocated,
                        ).spec_get(k)
                    &&& final(events)@.len() == old(events)@.len() + 1
                    &&& (final(events)@.last() matches Event::RuneMinted {
                        block_height,
                        txid: t,
                        rune_id,
                        amount: a,
                    } && block_height == height && t@ == txid@ && rune_id == id && a == amount)
                }
            }
        }),
{
    let id = match mint {
        Some(id) => id,
        None => {
            return Ok(());
        },
    };
    let entry = match store.entries.take_out(id) {
        Some(e) => e,
        None => {
            return Ok(());
        },
    };
    let mintable = entry.mintable(height as u64);
    match mintable {
        Err(_) => {
            store.entries.insert(id, entry);
            Ok(())
        },
        Ok(amount) => {
            proof {
                assert(entry.spec_mintable(height as u64) is Ok);
                assert(entry.terms is Some);
                assert(entry.mints < u128::MAX);
            }
            let mut entry = entry;
            entry.mints = entry.mints + 1;
            store.entries.insert(id, entry);
            if !add_amount(unallocated, id, amount) {
                return Err(UpdateError::Overflow);
            }
            events.push(
                Event::RuneMinted {
                    block_height: height,
                    txid: clone_bytes(txid),
                    rune_id: id,
                    amount,
                },
            );
            Ok(())
        },
    }
}

/// Credits an etching's premine to the etched rune.
pub fn process_premine(
    unallocated: &mut RuneTable<u128>,
    etched: Option<RuneId>,
    premine: u128,
) -> (r: Result<(), UpdateError>)
    requires
        old(unallocated).wf(),
    ensures
        final(unallocated).wf(),
        etched is None ==> r == Ok::<(), UpdateError>(()) && *final(unallocated) == *old(
            unallocated,
        ),
        etched matches Some(id) ==> {
            &&& (r is Err) <==> amt(*old(unallocated), id) + premine > u128::MAX
            &&& r is Ok ==> amt(*final(unallocated), id) == amt(*old(unallocated), id) + premine
                && (forall|k: RuneId|
                k != id ==> final(unallocated).spec_get(k) == old(unallocated).spec_get(k))
        },
{
    let id = match etched {
        Some(id) => id,
        None => {
            return Ok(());
        },
    };
    if !add_amount(unallocated, id, premine) {
        return Err(UpdateError::Overflow);
    }
    Ok(())
}


/// Resolves the rune a transaction etches, if any. A named rune must be at
/// least the height's minimum, unreserved, unassigned, and committed to by
/// the transaction; an unnamed etching draws the next reserved name.
pub fn etched(
    store: &mut Store,
    sc: &mut ScriptCache,
    node: &NodeView,
    tx: &Tx,
    tx_index: u32,
    height: u32,
    minimum: Rune,
    has_etching: bool,
    rune_opt: Option<Rune>,
) -> (r: Result<Option<(RuneId, Rune)>, UpdateError>)
    requires
        old(store).wf(),
        old(sc).wf(),
        old(sc).coherent(*node),
    ensures
        final(store).wf(),
        final(sc).wf(),
        final(sc).max_bytes == old(sc).max_bytes,
        final(sc).coherent(*node),
        *final(store) == (Store { reserved_runes: final(store).reserved_runes, ..*old(store) }),
        !has_etching ==> r == Ok::<Option<(RuneId, Rune)>, UpdateError>(None) && *final(store)
            == *old(store),
        rune_opt matches Some(rune) ==> has_etching ==> {
            let good = rune.0 >= minimum.0 && !rune.spec_is_reserved() && old(
                store,
            ).rune_to_id.spec_get(rune.0) is None && spec_commits(*node, *tx, rune, height);
            &&& *final(store) == *old(store)
            &&& good ==> r == Ok::<Option<(RuneId, Rune)>, UpdateError>(
                Some((RuneId { block: height as u64, tx: tx_index }, rune)),
            )
            &&& !good ==> r == Ok::<Option<(RuneId, Rune)>, UpdateError>(None)
        },
        (has_etching && rune_opt is None) ==> {
            &&& (r is Err) <==> old(store).reserved_runes == u64::MAX
            &&& r is Ok ==> {
                &&& final(store).reserved_runes == old(store).reserved_runes + 1
                &&& r == Ok::<Option<(RuneId, Rune)>, UpdateError>(
                    Some(
                        (
                            RuneId { block: height as u64, tx: tx_index },
                            Rune::spec_reserved(height as u64, tx_index),
                        ),
                    ),
                )
            }
        },
{
    if !has_etching {
        return Ok(None);
    }
    match rune_opt {
        Some(rune) => {
            let too_low = rune.0 < minimum.0;
            let reserved = rune.is_reserved();
            let already = store.rune_to_id.get(rune.0).is_some();
            let commits = tx_commits_to_rune(sc, node, tx, rune, height);
            if too_low || reserved || already || !commits {
                Ok(None)
            } else {
                Ok(Some((RuneId { block: height as u64, tx: tx_index }, rune)))
            }
        },
        None => {
            if store.reserved_runes == u64::MAX {
                return Err(UpdateError::Overflow);
            }
            store.reserved_runes = store.reserved_runes + 1;
            let rune = Rune::reserved(height as u64, tx_index);
            Ok(Some((RuneId { block: height as u64, tx: tx_index }, rune)))
        },
    }
}

/// The authority flag bits a new rune starts with: master always, mint and
/// blacklist as the etching terms allow.
pub open spec fn spec_initial_flags(terms: Option<crate::entry::Terms>) -> u8 {
    (4u8 | (match terms {
        Some(t) => if t.allow_minting {
            1u8
        } else {
            0u8
        },
        None => 0u8,
    }) | (match terms {
        Some(t) => if t.allow_blacklisting {
            2u8
        } else {
            0u8
        },
        None => 0u8,
    })) as u8
}

/// Records a newly etched rune: its name assignment, its domain entry, and
/// for a proper runestone its authority flags, with every authority slot
/// seeded from the etcher's prevout script when that script is convertible.
#[verifier::rlimit(60)]
pub fn create_rune_entry(
    cache: &mut AuthorityContextCache,
    sc: &mut ScriptCache,
    store: &mut Store,
    node: &NodeView,
    tx: &Tx,
    txid: &Vec<u8>,
    id: RuneId,
    rune: Rune,
    is_cenotaph: bool,
    etching: Option<crate::runestone::Etching>,
    block_time: u32,
    height: u32,
    events: &mut Vec<Event>,
) -> (r: Result<(), UpdateError>)
    requires
        old(store).wf(),
        old(cache).wf(),
        cache_ok(*old(cache), *old(store)),
        old(sc).wf(),
        old(sc).coherent(*node),
        !is_cenotaph ==> etching is Some,
    ensures
        final(store).wf(),
        final(cache).wf(),
        final(cache).max_bytes == old(cache).max_bytes,
        cache_ok(*final(cache), *final(store)),
        final(sc).wf(),
        final(sc).max_bytes == old(sc).max_bytes,
        final(sc).coherent(*node),
        final(store).outpoint_balances == old(store).outpoint_balances,
        final(store).minters == old(store).minters,
        final(store).blacklist == old(store).blacklist,
        final(store).supply_extra == old(store).supply_extra,
        final(store).reserved_runes == old(store).reserved_runes,
        (r is Err) <==> old(store).runes == u64::MAX,
        r is Err ==> *final(store) == *old(store) && final(events)@ == old(events)@,
        r is Ok ==> {
            &&& final(store).runes == old(store).runes + 1
            &&& final(store).rune_to_id.spec_get(rune.0) == Some(id)
            &&& forall|n: u128|
                n != rune.0 ==> final(store).rune_to_id.spec_get(n) == old(
                    store,
                ).rune_to_id.spec_get(n)
            &&& (match final(store).entries.spec_get(id) {
                Some(en) => {
                    &&& en.block == id.block
                    &&& en.burned == 0
                    &&& en.mints == 0
                    &&& en.number == old(store).runes
                    &&& en.etching@ == txid@
                    &&& en.spaced_rune.rune == rune
                    &&& en.timestamp == block_time
                    &&& is_cenotaph ==> (en.divisibility == 0 && en.terms is None && en.premine
                        == 0 && en.spaced_rune.spacers == 0 && en.symbol is None && !en.turbo)
                    &&& etching matches Some(e) ==> !is_cenotaph ==> {
                        &&& en.divisibility == (match e.divisibility {
                            Some(d) => d,
                            None => 0,
                        })
                        &&& en.terms == e.terms
                        &&& en.premine == (match e.premine {
                            Some(p) => p,
                            None => 0,
                        })
                        &&& en.spaced_rune.spacers == (match e.spacers {
                            Some(sp) => sp,
                            None => 0,
                        })
                        &&& en.symbol == e.symbol
                        &&& en.turbo == e.turbo
                    }
                },
                None => false,
            })
            &&& forall|k: RuneId|
                k != id ==> final(store).entries.spec_get(k) == old(store).entries.spec_get(k)
            &&& is_cenotaph ==> (final(store).authority_flags == old(store).authority_flags
                && final(store).authority_scripts == old(store).authority_scripts)
            &&& etching matches Some(e) ==> !is_cenotaph ==> {
                &&& final(store).authority_flags.spec_get(id) == Some(spec_initial_flags(e.terms))
                &&& forall|k: RuneId|
                    k != id ==> final(store).authority_flags.spec_get(k) == old(
                        store,
                    ).authority_flags.spec_get(k)
                &&& forall|k: RuneId|
                    k != id ==> final(store).authority_scripts.spec_get(k) == old(
                        store,
                    ).authority_scripts.spec_get(k)
                &&& tx.inputs@.len() > 0 ==> (match node.spec_script(
                    tx.inputs@[0].prevout.key(),
                ) {
                    Some(s) => match crate::compact_script::spec_try_from_script(s) {
                        Some(p) => match final(store).authority_scripts.spec_get(id) {
                            Some(b) => b@ == spec_initial_blob(p.0.spec_byte(), p.1),
                            None => false,
                        },
                        None => final(store).authority_scripts.spec_get(id) == old(
                            store,
                        ).authority_scripts.spec_get(id),
                    },
                    None => final(store).authority_scripts.spec_get(id) == old(
                        store,
                    ).authority_scripts.spec_get(id),
                })
                &&& tx.inputs@.len() == 0 ==> final(store).authority_scripts.spec_get(id) == old(
                    store,
                ).authority_scripts.spec_get(id)
            }
            &&& final(events)@.len() == old(events)@.len() + 1
            &&& (final(events)@.last() matches Event::RuneEtched { block_height, txid: t, rune_id }
                && block_height == height && t@ == txid@ && rune_id == id)
        },
{
    if store.runes == u64::MAX {
        return Err(UpdateError::Overflow);
    }
    let ghost st0 = *store;
    let number = store.runes;
    store.rune_to_id.insert(rune.0, id);
    store.runes = store.runes + 1;

    let entry: RuneEntry;
    if is_cenotaph {
        entry = RuneEntry {
            block: id.block,
            burned: 0,
            divisibility: 0,
            etching: clone_bytes(txid),
            mints: 0,
            number,
            premine: 0,
            spaced_rune: crate::entry::SpacedRune { rune, spacers: 0 },
            symbol: None,
            terms: None,
            timestamp: block_time as u64,
            turbo: false,
        };
    } else {
        let e = match &etching {
            Some(e) => e,
            None => {
                proof {
                    assert(false);
                }
                vstd::pervasive::unreached()
            },
        };
        let allow_minting = match &e.terms {
            Some(t) => t.allow_minting,
            None => false,
        };
        let allow_blacklisting = match &e.terms {
            Some(t) => t.allow_blacklisting,
            None => false,
        };
        let flag_bits: u8 = 4u8 | (if allow_minting {
            1u8
        } else {
            0u8
        }) | (if allow_blacklisting {
            2u8
        } else {
            0u8
        });
        proof {
            assert(flag_bits == spec_initial_flags(e.terms));
        }
        store.authority_flags.insert(id, flag_bits);

        if tx.inputs.len() > 0 {
            let first = &tx.inputs[0];
            let fetched = sc.get_script_pubkey(node, &first.prevout.txid, first.prevout.vout);
            if let Some(script) = fetched {
                match CompactScript::try_from_script(script.as_slice()) {
                    Some(compact) => {
                        let blob = build_initial_authority_scripts_blob(&compact);
                        store.authority_scripts.insert(id, blob);
                    },
                    None => {},
                }
            }
        }

        entry = RuneEntry {
            block: id.block,
            burned: 0,
            divisibility: match e.divisibility {
                Some(d) => d,
                None => 0,
            },
            etching: clone_bytes(txid),
            mints: 0,
            number,
            premine: match e.premine {
                Some(p) => p,
                None => 0,
            },
            spaced_rune: crate::entry::SpacedRune {
                rune,
                spacers: match e.spacers {
                    Some(sp) => sp,
                    None => 0,
                },
            },
            symbol: e.symbol,
            terms: e.terms,
            timestamp: block_time as u64,
            turbo: e.turbo,
        };
    }
    store.entries.insert(id, entry);
    cache.invalidate(id);
    proof {
        crate::executor::lemma_cache_ok_after_id_write(*cache, st0, *store, id);
    }
    events.push(
        Event::RuneEtched { block_height: height, txid: clone_bytes(txid), rune_id: id },
    );
    Ok(())
}


/// Adds every balance of `src` to `dst`; fails only on overflow.
fn add_table(dst: &mut RuneTable<u128>, src: &RuneTable<u128>) -> (ok: bool)
    requires
        old(dst).wf(),
        src.wf(),
    ensures
        final(dst).wf(),
        forall|k: RuneId| amt(*final(dst), k) >= amt(*old(dst), k),
        ok ==> forall|k: RuneId| amt(*final(dst), k) == amt(*old(dst), k) + amt(*src, k),
{
    let n = src.entries.len();
    let mut j: usize = 0;
    while j < n
        invariant
            j <= n,
            n == src.entries@.len(),
            src.wf(),
            dst.wf(),
            forall|k: RuneId|
                amt(*dst, k) == amt(*old(dst), k) + row_amt(src.entries@.take(j as int), k),
        decreases n - j,
    {
        let pair = src.entries[j];
        let id = pair.0;
        let v = pair.1;
        proof {
            assert(pair == src.entries@[j as int]);
            assert(id == src.entries@[j as int].0 && v == src.entries@[j as int].1);
            assert(src.entries@.take(j + 1) =~= src.entries@.take(j as int).push(
                src.entries@[j as int],
            ));
            assert forall|k: RuneId|
                row_amt(src.entries@.take(j + 1), k) == row_amt(src.entries@.take(j as int), k)
                    + (if src.entries@[j as int].0 == k {
                    src.entries@[j as int].1 as nat
                } else {
                    0nat
                }) by {
                lemma_row_amt_snoc(src.entries@.take(j as int), src.entries@[j as int], k);
            }
        }
        let ghost dst_pre = *dst;
        if !add_amount(dst, id, v) {
            return false;
        }
        proof {
            assert forall|k: RuneId|
                amt(*dst, k) == amt(*old(dst), k) + row_amt(src.entries@.take(j + 1), k) by {
                assert(amt(dst_pre, k) == amt(*old(dst), k) + row_amt(
                    src.entries@.take(j as int),
                    k,
                ));
                if k == id {
                    assert(amt(*dst, k) == amt(dst_pre, k) + v);
                } else {
                    assert(dst.spec_get(k) == dst_pre.spec_get(k));
                }
            }
        }
        j = j + 1;
    }
    proof {
        assert(src.entries@.take(n as int) =~= src.entries@);
        assert forall|k: RuneId| row_amt(src.entries@, k) == amt(*src, k) by {
            lemma_amt_is_row_amt(*src, k);
        }
    }
    true
}

/// Rune-id order: by block, then by transaction index.
pub open spec fn spec_id_le(a: RuneId, b: RuneId) -> bool {
    a.block < b.block || (a.block == b.block && a.tx <= b.tx)
}

/// A balance row sorted by rune id.
pub open spec fn spec_sorted_row(row: Seq<(RuneId, u128)>) -> bool {
    forall|i: int, j: int| 0 <= i < j < row.len() ==> spec_id_le(#[trigger] row[i].0, #[trigger] row[j].0)
}

pub proof fn lemma_row_amt_insert(s: Seq<(RuneId, u128)>, p: int, e: (RuneId, u128), k: RuneId)
    requires
        0 <= p <= s.len(),
    ensures
        row_amt(s.insert(p, e), k) == row_amt(s, k) + (if e.0 == k {
            e.1 as nat
        } else {
            0nat
        }),
    decreases p,
{
    if p == 0 {
        assert(s.insert(0, e).first() == e);
        assert(s.insert(0, e).drop_first() =~= s);
    } else {
        assert(s.insert(p, e).first() == s.first());
        assert(s.insert(p, e).drop_first() =~= s.drop_first().insert(p - 1, e));
        lemma_row_amt_insert(s.drop_first(), p - 1, e, k);
    }
}

/// Inserts a balance pair at its ordered position.
fn insert_sorted(row: &mut Vec<(RuneId, u128)>, id: RuneId, v: u128)
    requires
        spec_sorted_row(old(row)@),
    ensures
        spec_sorted_row(final(row)@),
        final(row)@.len() == old(row)@.len() + 1,
        forall|k: RuneId|
            row_amt(final(row)@, k) == row_amt(old(row)@, k) + (if id == k {
                v as nat
            } else {
                0nat
            }),
{
    let n = row.len();
    let mut p: usize = 0;
    while p < n && (row[p].0.block < id.block || (row[p].0.block == id.block && row[p].0.tx
        <= id.tx))
        invariant
            p <= n,
            n == row@.len(),
            row@ == old(row)@,
            forall|q: int| 0 <= q < p ==> spec_id_le((#[trigger] row@[q]).0, id),
        decreases n - p,
    {
        p = p + 1;
    }
    proof {
        assert(p == n || !spec_id_le(old(row)@[p as int].0, id));
    }
    proof {
        assert forall|k: RuneId|
            row_amt(old(row)@.insert(p as int, (id, v)), k) == row_amt(old(row)@, k) + (
            if id == k {
                v as nat
            } else {
                0nat
            }) by {
            lemma_row_amt_insert(old(row)@, p as int, (id, v), k);
        }
    }
    row.insert(p, (id, v));
    proof {
        let newrow = row@;
        assert forall|i: int, j: int| 0 <= i < j < newrow.len() implies spec_id_le(
            (#[trigger] newrow[i]).0,
            (#[trigger] newrow[j]).0,
        ) by {
            if i == p {
                assert(newrow[i].0 == id);
                assert(newrow[j] == old(row)@[j - 1]);
                assert(!spec_id_le(old(row)@[p as int].0, id));
                assert(spec_id_le(id, old(row)@[p as int].0));
                if j - 1 > p {
                    assert(spec_id_le(old(row)@[p as int].0, old(row)@[j - 1].0));
                }
            } else if j == p {
                assert(newrow[i] == old(row)@[i]);
                assert(spec_id_le(old(row)@[i].0, id));
            } else if i < p && j < p {
                assert(newrow[i] == old(row)@[i]);
                assert(newrow[j] == old(row)@[j]);
            } else if i < p && j > p {
                assert(newrow[i] == old(row)@[i]);
                assert(newrow[j] == old(row)@[j - 1]);
                if j - 1 == i {
                    assert(spec_id_le(old(row)@[i].0, old(row)@[i].0));
                }
            } else {
                assert(newrow[i] == old(row)@[i - 1]);
                assert(newrow[j] == old(row)@[j - 1]);
            }
        }
    }
}


/// Index of the first output that is not an OP_RETURN, from position `i`.
pub open spec fn spec_first_non_opret(outputs: Seq<crate::tx::TxOut>, i: int) -> Option<int>
    decreases (if i < outputs.len() { (outputs.len() - i) as nat } else { 0nat }),
{
    if i < 0 || i >= outputs.len() {
        None
    } else if !crate::tx::spec_is_op_return(outputs[i].script_pubkey@) {
        Some(i)
    } else {
        spec_first_non_opret(outputs, i + 1)
    }
}

/// The sweep destination: the pointer output when it is in range, else the
/// first non-OP_RETURN output.
pub open spec fn spec_default_vout(tx: Tx, pointer: Option<u32>) -> Option<int> {
    match pointer {
        Some(p) => if (p as int) < tx.outputs@.len() {
            Some(p as int)
        } else {
            spec_first_non_opret(tx.outputs@, 0)
        },
        None => spec_first_non_opret(tx.outputs@, 0),
    }
}

/// What the sweep deposits at output `v` for rune `k`: the unallocated
/// amount when `v` is the destination and not blacklisted for the rune.
pub open spec fn spec_dest_amt(
    st: Store,
    tx: Tx,
    pointer: Option<u32>,
    is_cenotaph: bool,
    un: RuneTable<u128>,
    k: RuneId,
    v: int,
) -> nat {
    if !is_cenotaph && spec_default_vout(tx, pointer) == Some(v) && !crate::authority::spec_is_blacklisted(
        st,
        k,
        tx.outputs@[v].script_pubkey@,
    ) {
        amt(un, k)
    } else {
        0
    }
}

/// What the unallocated remainder adds to `burned` for rune `k`: everything
/// under a cenotaph or without a destination; a destination that is itself
/// an OP_RETURN output burns what was swept to it; a blacklisted
/// destination burns nothing (the amount is kept with the sender).
pub open spec fn spec_sweep_burn(
    st: Store,
    tx: Tx,
    pointer: Option<u32>,
    is_cenotaph: bool,
    un: RuneTable<u128>,
    k: RuneId,
) -> nat {
    if is_cenotaph {
        amt(un, k)
    } else {
        match spec_default_vout(tx, pointer) {
            None => amt(un, k),
            Some(v) => if !crate::authority::spec_is_blacklisted(
                st,
                k,
                tx.outputs@[v].script_pubkey@,
            ) && crate::tx::spec_is_op_return(tx.outputs@[v].script_pubkey@) {
                amt(un, k)
            } else {
                0
            },
        }
    }
}

/// The amounts of rune `k` allocated to OP_RETURN outputs from `i` on.
pub open spec fn spec_opret_sum(al: Seq<RuneTable<u128>>, tx: Tx, i: int, k: RuneId) -> nat
    decreases (if i < al.len() { (al.len() - i) as nat } else { 0nat }),
{
    if i < 0 || i >= al.len() {
        0
    } else {
        (if i < tx.outputs@.len() && crate::tx::spec_is_op_return(tx.outputs@[i].script_pubkey@) {
            amt(al[i], k)
        } else {
            0
        }) + spec_opret_sum(al, tx, i + 1, k)
    }
}

/// Replacing one table changes the OP_RETURN total by that index's change.
pub proof fn lemma_opret_sum_update(
    al: Seq<RuneTable<u128>>,
    w: int,
    t: RuneTable<u128>,
    tx: Tx,
    i: int,
    k: RuneId,
)
    requires
        0 <= w < al.len(),
        0 <= i,
    ensures
        spec_opret_sum(al.update(w, t), tx, i, k) + (if i <= w && w < tx.outputs@.len()
            && crate::tx::spec_is_op_return(tx.outputs@[w].script_pubkey@) {
            amt(al[w], k)
        } else {
            0nat
        }) == spec_opret_sum(al, tx, i, k) + (if i <= w && w < tx.outputs@.len()
            && crate::tx::spec_is_op_return(tx.outputs@[w].script_pubkey@) {
            amt(t, k)
        } else {
            0nat
        }),
    decreases (if i < al.len() { (al.len() - i) as nat } else { 0nat }),
{
    if i < al.len() {
        lemma_opret_sum_update(al, w, t, tx, i + 1, k);
        assert(al.update(w, t).len() == al.len());
        if i != w {
            assert(al.update(w, t)[i] == al[i]);
        }
    }
}

/// Whether the sweep loses nothing for rune `k`: it does, exactly when a
/// destination exists but is blacklisted for the rune (the amount is then
/// neither credited nor burned).
pub open spec fn spec_no_sweep_drop(
    st: Store,
    tx: Tx,
    pointer: Option<u32>,
    is_cenotaph: bool,
    k: RuneId,
) -> bool {
    is_cenotaph || (match spec_default_vout(tx, pointer) {
        Some(v) => !crate::authority::spec_is_blacklisted(st, k, tx.outputs@[v].script_pubkey@),
        None => true,
    })
}

/// The amount a possibly-absent row carries for rune `k`.
pub open spec fn spec_row_amt_opt(r: Option<Seq<(RuneId, u128)>>, k: RuneId) -> nat {
    match r {
        Some(row) => row_amt(row, k),
        None => 0,
    }
}

/// Index of the first output that is not an OP_RETURN, if any.
fn first_non_op_return(tx: &Tx) -> (r: Option<usize>)
    ensures
        match r {
            Some(v) => spec_first_non_opret(tx.outputs@, 0) == Some(v as int) && v
                < tx.outputs@.len(),
            None => spec_first_non_opret(tx.outputs@, 0) is None,
        },
{
    let n = tx.outputs.len();
    let mut v: usize = 0;
    while v < n
        invariant
            v <= n,
            n == tx.outputs@.len(),
            spec_first_non_opret(tx.outputs@, 0) == spec_first_non_opret(tx.outputs@, v as int),
        decreases n - v,
    {
        if !crate::tx::is_op_return(&tx.outputs[v].script_pubkey) {
            return Some(v);
        }
        v = v + 1;
    }
    None
}

/// No stored row sits under this transaction's outpoints yet.
pub open spec fn spec_fresh_outpoints(st: Store, txid: Seq<u8>) -> bool {
    forall|v: u32| st.outpoint_balances.spec_row((txid, v)) is None
}

/// Burns or deposits what the transaction left unallocated, then writes the
/// per-output balance rows. Under a cenotaph every unallocated amount is
/// burned; otherwise it flows to the pointer output, or the first
/// non-OP_RETURN output, and stays with the sender when that destination is
/// blacklisted. OP_RETURN allocations burn. Each written row is sorted by
/// rune id and announced with a transfer event.
#[verifier::rlimit(100)]
pub fn process_cenotaph_and_balances(
    cache: &mut AuthorityContextCache,
    store: &mut Store,
    tx: &Tx,
    txid: &Vec<u8>,
    is_cenotaph: bool,
    pointer: Option<u32>,
    unallocated: RuneTable<u128>,
    allocated: Vec<RuneTable<u128>>,
    burned: &mut RuneTable<u128>,
    events: &mut Vec<Event>,
    height: u32,
) -> (r: Result<(), UpdateError>)
    requires
        old(store).wf(),
        old(cache).wf(),
        cache_ok(*old(cache), *old(store)),
        unallocated.wf(),
        crate::executor::al_wf(allocated@),
        allocated@.len() == tx.outputs@.len(),
        tx.outputs@.len() <= 0xffffffff,
        old(burned).wf(),
    ensures
        final(store).wf(),
        final(cache).wf(),
        final(cache).max_bytes == old(cache).max_bytes,
        cache_ok(*final(cache), *final(store)),
        final(burned).wf(),
        final(store).authority_flags == old(store).authority_flags,
        final(store).authority_scripts == old(store).authority_scripts,
        final(store).minters == old(store).minters,
        final(store).blacklist == old(store).blacklist,
        final(store).supply_extra == old(store).supply_extra,
        final(store).entries == old(store).entries,
        final(store).rune_to_id == old(store).rune_to_id,
        final(store).runes == old(store).runes,
        final(store).reserved_runes == old(store).reserved_runes,
        forall|k: (Seq<u8>, u32)|
            k.0 != txid@ ==> final(store).outpoint_balances.spec_row(k)
                == old(store).outpoint_balances.spec_row(k),
        forall|k: (Seq<u8>, u32)|
            old(store).outpoint_balances.spec_row(k) is None ==> (
            match final(store).outpoint_balances.spec_row(k) {
                Some(row) => spec_sorted_row(row),
                None => true,
            }),
        forall|k: RuneId| amt(*final(burned), k) >= amt(*old(burned), k),
        forall|j: int| 0 <= j < old(events)@.len() ==> final(events)@[j] == old(events)@[j],
        forall|j: int|
            old(events)@.len() <= j < final(events)@.len() ==> (
            match #[trigger] final(events)@[j] {
                Event::RuneTransferred { block_height, txid: t, rune_id, amount, vout } =>
                    block_height == height && t@ == txid@ && (vout as int) < tx.outputs@.len(),
                _ => false,
            }),
        r is Ok ==> forall|k: RuneId|
            amt(*final(burned), k) == amt(*old(burned), k) + spec_opret_sum(
                allocated@,
                *tx,
                0,
                k,
            ) + spec_sweep_burn(*old(store), *tx, pointer, is_cenotaph, unallocated, k),
        (r is Ok && spec_fresh_outpoints(*old(store), txid@)) ==> forall|v: u32, k: RuneId|
            #![trigger spec_row_amt_opt(final(store).outpoint_balances.spec_row((txid@, v)), k)]
            (v as int) < tx.outputs@.len() ==> spec_row_amt_opt(
                final(store).outpoint_balances.spec_row((txid@, v)),
                k,
            ) == (if crate::tx::spec_is_op_return(tx.outputs@[v as int].script_pubkey@) {
                0nat
            } else {
                amt(allocated@[v as int], k) + spec_dest_amt(
                    *old(store),
                    *tx,
                    pointer,
                    is_cenotaph,
                    unallocated,
                    k,
                    v as int,
                )
            }),
        (r is Ok && spec_fresh_outpoints(*old(store), txid@)) ==> forall|v: u32|
            (v as int) < tx.outputs@.len() && crate::tx::spec_is_op_return(
                tx.outputs@[v as int].script_pubkey@,
            ) ==> final(store).outpoint_balances.spec_row((txid@, v)) is None,
        r is Ok ==> forall|k: RuneId|
            amt(*final(burned), k) + row_sum(final(store).outpoint_balances.entries@, k) <= amt(
                *old(burned),
                k,
            ) + row_sum(old(store).outpoint_balances.entries@, k) + amt(unallocated, k)
                + crate::sums::alloc_sum(allocated@, k),
        (r is Ok && spec_fresh_outpoints(*old(store), txid@)) ==> forall|k: RuneId|
            spec_no_sweep_drop(*old(store), *tx, pointer, is_cenotaph, k) ==> amt(
                *final(burned),
                k,
            ) + row_sum(final(store).outpoint_balances.entries@, k) == amt(*old(burned), k)
                + row_sum(old(store).outpoint_balances.entries@, k) + amt(unallocated, k)
                + crate::sums::alloc_sum(allocated@, k),
        r is Err ==> r == Err::<(), UpdateError>(UpdateError::Overflow),
{
    let mut al = allocated;
    let ghost al0 = al@;
    let ghost burned0 = *burned;
    let ghost st0 = *store;

    let outputs_len = tx.outputs.len();
    let mut dest_opt: Option<usize> = None;
    if !is_cenotaph {
        match pointer {
            Some(p) => {
                if (p as usize) < outputs_len {
                    dest_opt = Some(p as usize);
                } else {
                    dest_opt = first_non_op_return(tx);
                }
            },
            None => {
                dest_opt = first_non_op_return(tx);
            },
        }
        proof {
            assert(match dest_opt {
                Some(v) => spec_default_vout(*tx, pointer) == Some(v as int),
                None => spec_default_vout(*tx, pointer) is None,
            });
        }
    }

    if is_cenotaph {
        if !add_table(burned, &unallocated) {
            return Err(UpdateError::Overflow);
        }
    } else {
        match dest_opt {
            Some(vout) => {
                let n = unallocated.entries.len();
                let mut j: usize = 0;
                while j < n
                    invariant
                        j <= n,
                        n == unallocated.entries@.len(),
                        unallocated.wf(),
                        vout < tx.outputs@.len(),
                        spec_default_vout(*tx, pointer) == Some(vout as int),
                        !is_cenotaph,
                        store.wf(),
                        *store == st0,
                        cache.wf(),
                        cache.max_bytes == old(cache).max_bytes,
                        cache_ok(*cache, *store),
                        crate::executor::al_wf(al@),
                        al@.len() == tx.outputs@.len(),
                        al@.len() == al0.len(),
                        *burned == *old(burned),
                        burned.wf(),
                        al0 == allocated@,
                        forall|v2: int| 0 <= v2 < al@.len() && v2 != vout ==> al@[v2] == al0[v2],
                        forall|k: RuneId|
                            amt(al@[vout as int], k) == amt(al0[vout as int], k) + (
                            if crate::authority::spec_is_blacklisted(
                                st0,
                                k,
                                tx.outputs@[vout as int].script_pubkey@,
                            ) {
                                0nat
                            } else {
                                row_amt(unallocated.entries@.take(j as int), k)
                            }),
                    decreases n - j,
                {
                    let pair = unallocated.entries[j];
                    let id = pair.0;
                    let bal = pair.1;
                    proof {
                        assert(pair == unallocated.entries@[j as int]);
                        assert(unallocated.entries@.take(j + 1) =~= unallocated.entries@.take(
                            j as int,
                        ).push(unallocated.entries@[j as int]));
                        assert forall|k: RuneId|
                            row_amt(unallocated.entries@.take(j + 1), k) == row_amt(
                                unallocated.entries@.take(j as int),
                                k,
                            ) + (if pair.0 == k {
                                pair.1 as nat
                            } else {
                                0nat
                            }) by {
                            lemma_row_amt_snoc(
                                unallocated.entries@.take(j as int),
                                unallocated.entries@[j as int],
                                k,
                            );
                        }
                    }
                    let ghost al_loop_pre = al@;
                    if bal > 0 {
                        let blocked = crate::authority::is_blacklisted(
                            cache,
                            store,
                            id,
                            &tx.outputs[vout].script_pubkey,
                        );
                        proof {
                            assert(blocked == crate::authority::spec_is_blacklisted(
                                st0,
                                id,
                                tx.outputs@[vout as int].script_pubkey@,
                            ));
                        }
                        if !blocked {
                            let ghost al_pre = al@;
                            let mut t = al.remove(vout);
                            if !add_amount(&mut t, id, bal) {
                                return Err(UpdateError::Overflow);
                            }
                            proof {
                                assert(al_pre.remove(vout as int).insert(vout as int, t)
                                    =~= al_pre.update(vout as int, t));
                            }
                            al.insert(vout, t);
                            proof {
                                assert(crate::executor::al_wf(al@)) by {
                                    assert forall|w: int|
                                        0 <= w < al@.len() implies (#[trigger] al@[w]).wf() by {}
                                }
                                assert(al@[vout as int] == t);
                                assert forall|k: RuneId|
                                    amt(al@[vout as int], k) == amt(al0[vout as int], k) + (
                                    if crate::authority::spec_is_blacklisted(
                                        st0,
                                        k,
                                        tx.outputs@[vout as int].script_pubkey@,
                                    ) {
                                        0nat
                                    } else {
                                        row_amt(unallocated.entries@.take(j + 1), k)
                                    }) by {
                                    assert(amt(al_pre[vout as int], k) == amt(
                                        al0[vout as int],
                                        k,
                                    ) + (if crate::authority::spec_is_blacklisted(
                                        st0,
                                        k,
                                        tx.outputs@[vout as int].script_pubkey@,
                                    ) {
                                        0nat
                                    } else {
                                        row_amt(unallocated.entries@.take(j as int), k)
                                    }));
                                    if k == id {
                                        assert(amt(t, k) == amt(al_pre[vout as int], k) + bal);
                                    } else {
                                        assert(t.spec_get(k)
                                            == (al_pre[vout as int]).spec_get(k));
                                        assert(amt(t, k) == amt(al_pre[vout as int], k));
                                    }
                                }
                            }
                        } else {
                            proof {
                                assert forall|k: RuneId|
                                    amt(al@[vout as int], k) == amt(al0[vout as int], k) + (
                                    if crate::authority::spec_is_blacklisted(
                                        st0,
                                        k,
                                        tx.outputs@[vout as int].script_pubkey@,
                                    ) {
                                        0nat
                                    } else {
                                        row_amt(unallocated.entries@.take(j + 1), k)
                                    }) by {}
                            }
                        }
                    } else {
                        proof {
                            assert forall|k: RuneId|
                                amt(al@[vout as int], k) == amt(al0[vout as int], k) + (
                                if crate::authority::spec_is_blacklisted(
                                    st0,
                                    k,
                                    tx.outputs@[vout as int].script_pubkey@,
                                ) {
                                    0nat
                                } else {
                                    row_amt(unallocated.entries@.take(j + 1), k)
                                }) by {}
                        }
                    }
                    j = j + 1;
                }
                proof {
                    assert(unallocated.entries@.take(n as int) =~= unallocated.entries@);
                    assert forall|k: RuneId|
                        row_amt(unallocated.entries@, k) == amt(unallocated, k) by {
                        lemma_amt_is_row_amt(unallocated, k);
                    }
                }
            },
            None => {
                if !add_table(burned, &unallocated) {
                    return Err(UpdateError::Overflow);
                }
            },
        }
    }

    let ghost burned_a = *burned;
    let ghost al_a = al@;
    proof {
        assert(al@.skip(0) =~= al@);
        assert forall|k: RuneId| row_amt(unallocated.entries@, k) == amt(unallocated, k) by {
            lemma_amt_is_row_amt(unallocated, k);
        }
        // Phase facts: what the sweep moved and burned so far, and the
        // allocation tables it left.
        assert forall|w: int, k: RuneId|
            #![trigger amt(al_a[w], k)]
            0 <= w < al_a.len() ==> amt(al_a[w], k) == amt(al0[w], k) + spec_dest_amt(
                st0,
                *tx,
                pointer,
                is_cenotaph,
                unallocated,
                k,
                w,
            ) by {}
        assert forall|k: RuneId|
            amt(burned_a, k) == amt(burned0, k) + (if is_cenotaph {
                amt(unallocated, k)
            } else {
                match spec_default_vout(*tx, pointer) {
                    None => amt(unallocated, k),
                    Some(_) => 0nat,
                }
            }) by {}
        assert forall|k: RuneId|
            crate::sums::alloc_sum(al_a, k) == crate::sums::alloc_sum(al0, k) + (
            match spec_default_vout(*tx, pointer) {
                Some(v) => if !is_cenotaph && !crate::authority::spec_is_blacklisted(
                    st0,
                    k,
                    tx.outputs@[v].script_pubkey@,
                ) {
                    amt(unallocated, k)
                } else {
                    0nat
                },
                None => 0nat,
            }) by {
            if !is_cenotaph && spec_default_vout(*tx, pointer) is Some {
                let v = spec_default_vout(*tx, pointer).unwrap();
                crate::sums::lemma_alloc_sum_update(al0, v, al_a[v], k);
                assert(al_a =~= al0.update(v, al_a[v]));
            } else {
                assert(al_a =~= al0);
            }
        }
        assert forall|k: RuneId|
            spec_opret_sum(al_a, *tx, 0, k) == spec_opret_sum(al0, *tx, 0, k) + (
            match spec_default_vout(*tx, pointer) {
                Some(v) => if !is_cenotaph && crate::tx::spec_is_op_return(
                    tx.outputs@[v].script_pubkey@,
                ) && !crate::authority::spec_is_blacklisted(
                    st0,
                    k,
                    tx.outputs@[v].script_pubkey@,
                ) {
                    amt(unallocated, k)
                } else {
                    0nat
                },
                None => 0nat,
            }) by {
            if !is_cenotaph && spec_default_vout(*tx, pointer) is Some {
                let v = spec_default_vout(*tx, pointer).unwrap();
                lemma_opret_sum_update(al0, v, al_a[v], *tx, 0, k);
                assert(al_a =~= al0.update(v, al_a[v]));
            } else {
                assert(al_a =~= al0);
            }
        }
    }
    let out_count = al.len();
    let mut v: usize = 0;
    while v < out_count
        invariant
            v <= out_count,
            out_count == al@.len(),
            al@.len() == tx.outputs@.len(),
            out_count <= 0xffffffff,
            al@ == al_a,
            crate::executor::al_wf(al@),
            store.wf(),
            store.authority_flags == st0.authority_flags,
            store.authority_scripts == st0.authority_scripts,
            store.minters == st0.minters,
            store.blacklist == st0.blacklist,
            store.supply_extra == st0.supply_extra,
            store.entries == st0.entries,
            store.rune_to_id == st0.rune_to_id,
            store.runes == st0.runes,
            store.reserved_runes == st0.reserved_runes,
            st0.authority_flags == old(store).authority_flags,
            st0.authority_scripts == old(store).authority_scripts,
            st0.minters == old(store).minters,
            st0.blacklist == old(store).blacklist,
            st0.supply_extra == old(store).supply_extra,
            st0.entries == old(store).entries,
            st0.rune_to_id == old(store).rune_to_id,
            st0.runes == old(store).runes,
            st0.reserved_runes == old(store).reserved_runes,
            st0.outpoint_balances == old(store).outpoint_balances,
            cache.wf(),
            cache.max_bytes == old(cache).max_bytes,
            cache_ok(*cache, *store),
            burned.wf(),
            burned0 == *old(burned),
            forall|k: RuneId| amt(*burned, k) >= amt(burned_a, k),
            forall|k: RuneId| amt(burned_a, k) >= amt(burned0, k),
            forall|k: (Seq<u8>, u32)|
                k.0 != txid@ ==> store.outpoint_balances.spec_row(k) == old(
                    store,
                ).outpoint_balances.spec_row(k),
            forall|k: (Seq<u8>, u32)|
                old(store).outpoint_balances.spec_row(k) is None ==> (match store
                    .outpoint_balances.spec_row(k) {
                    Some(row) => spec_sorted_row(row),
                    None => true,
                }),
            forall|w: u32|
                v <= w ==> store.outpoint_balances.spec_row((txid@, w)) == old(
                    store,
                ).outpoint_balances.spec_row((txid@, w)),
            forall|j: int| 0 <= j < old(events)@.len() ==> events@[j] == old(events)@[j],
            old(events)@.len() <= events@.len(),
            forall|j: int|
                old(events)@.len() <= j < events@.len() ==> (match #[trigger] events@[j] {
                    Event::RuneTransferred { block_height, txid: t, rune_id, amount, vout } =>
                        block_height == height && t@ == txid@ && (vout as int)
                        < tx.outputs@.len(),
                    _ => false,
                }),
            forall|k: RuneId|
                amt(*burned, k) + spec_opret_sum(al_a, *tx, v as int, k) == amt(burned_a, k)
                    + spec_opret_sum(al_a, *tx, 0, k),
            spec_fresh_outpoints(st0, txid@) ==> forall|w: u32, k: RuneId|
                #![trigger spec_row_amt_opt(store.outpoint_balances.spec_row((txid@, w)), k)]
                w < v ==> spec_row_amt_opt(store.outpoint_balances.spec_row((txid@, w)), k) == (
                if crate::tx::spec_is_op_return(tx.outputs@[w as int].script_pubkey@) {
                    0nat
                } else {
                    amt(al_a[w as int], k)
                }),
            spec_fresh_outpoints(st0, txid@) ==> forall|w: u32|
                w < v && crate::tx::spec_is_op_return(tx.outputs@[w as int].script_pubkey@)
                    ==> store.outpoint_balances.spec_row((txid@, w)) is None,
            forall|k: RuneId|
                amt(*burned, k) + row_sum(store.outpoint_balances.entries@, k)
                    + crate::sums::alloc_sum(al@.skip(v as int), k) <= amt(burned0, k) + row_sum(
                    old(store).outpoint_balances.entries@,
                    k,
                ) + amt(unallocated, k) + crate::sums::alloc_sum(al0, k),
            spec_fresh_outpoints(st0, txid@) ==> forall|k: RuneId|
                spec_no_sweep_drop(st0, *tx, pointer, is_cenotaph, k) ==> amt(*burned, k)
                    + row_sum(store.outpoint_balances.entries@, k) + crate::sums::alloc_sum(
                    al@.skip(v as int),
                    k,
                ) == amt(burned0, k) + row_sum(old(store).outpoint_balances.entries@, k) + amt(
                    unallocated,
                    k,
                ) + crate::sums::alloc_sum(al0, k),
        decreases out_count - v,
    {
        proof {
            assert forall|k: RuneId|
                crate::sums::alloc_sum(al@.skip(v as int), k) == amt(al@[v as int], k)
                    + crate::sums::alloc_sum(al@.skip(v + 1), k) by {
                assert(al@.skip(v as int).len() > 0);
                assert(al@.skip(v as int).first() == al@[v as int]);
                assert(al@.skip(v as int).drop_first() =~= al@.skip(v + 1));
            }
            assert forall|k: RuneId|
                spec_opret_sum(al_a, *tx, v as int, k) == (if crate::tx::spec_is_op_return(
                    tx.outputs@[v as int].script_pubkey@,
                ) {
                    amt(al_a[v as int], k)
                } else {
                    0nat
                }) + spec_opret_sum(al_a, *tx, v + 1, k) by {}
        }
        let t = &al[v];
        let opret = crate::tx::is_op_return(&tx.outputs[v].script_pubkey);
        if t.entries.len() > 0 && opret {
            let ghost b_pre = *burned;
            let ok = add_table(burned, t);
            proof {
                assert forall|k: RuneId| amt(*burned, k) >= amt(burned_a, k) by {
                    assert(amt(*burned, k) >= amt(b_pre, k));
                }
            }
            if !ok {
                return Err(UpdateError::Overflow);
            }
            proof {
                assert forall|k: RuneId|
                    amt(*burned, k) == amt(b_pre, k) + amt(al@[v as int], k) by {}
            }
        } else if t.entries.len() > 0 {
            let mut row: Vec<(RuneId, u128)> = Vec::new();
            let en = t.entries.len();
            let mut j: usize = 0;
            while j < en
                invariant
                    j <= en,
                    v < al@.len(),
                    en == (al@[v as int]).entries@.len(),
                    t == al@[v as int],
                    (al@[v as int]).wf(),
                    spec_sorted_row(row@),
                    v < tx.outputs@.len(),
                    forall|jj: int| 0 <= jj < old(events)@.len() ==> events@[jj] == old(
                        events,
                    )@[jj],
                    old(events)@.len() <= events@.len(),
                    forall|jj: int|
                        old(events)@.len() <= jj < events@.len() ==> (
                        match #[trigger] events@[jj] {
                            Event::RuneTransferred {
                                block_height,
                                txid: t,
                                rune_id,
                                amount,
                                vout,
                            } => block_height == height && t@ == txid@ && (vout as int)
                                < tx.outputs@.len(),
                            _ => false,
                        }),
                    forall|k: RuneId|
                        row_amt(row@, k) == row_amt((al@[v as int]).entries@.take(j as int), k),
                decreases en - j,
            {
                let pair = t.entries[j];
                proof {
                    assert(pair == (al@[v as int]).entries@[j as int]);
                    assert((al@[v as int]).entries@.take(j + 1)
                        =~= (al@[v as int]).entries@.take(j as int).push(
                        (al@[v as int]).entries@[j as int],
                    ));
                    assert forall|k: RuneId|
                        row_amt((al@[v as int]).entries@.take(j + 1), k) == row_amt(
                            (al@[v as int]).entries@.take(j as int),
                            k,
                        ) + (if pair.0 == k {
                            pair.1 as nat
                        } else {
                            0nat
                        }) by {
                        lemma_row_amt_snoc(
                            (al@[v as int]).entries@.take(j as int),
                            (al@[v as int]).entries@[j as int],
                            k,
                        );
                    }
                }
                insert_sorted(&mut row, pair.0, pair.1);
                events.push(
                    Event::RuneTransferred {
                        block_height: height,
                        txid: clone_bytes(txid),
                        rune_id: pair.0,
                        amount: pair.1,
                        vout: v as u32,
                    },
                );
                j = j + 1;
            }
            proof {
                assert((al@[v as int]).entries@.take(en as int) =~= (al@[v as int]).entries@);
                assert forall|k: RuneId| row_amt(row@, k) == amt(al@[v as int], k) by {
                    lemma_amt_is_row_amt(al@[v as int], k);
                }
            }
            let ghost st_pre = *store;
            proof {
                if spec_fresh_outpoints(st0, txid@) {
                    assert(st0.outpoint_balances.spec_row((txid@, v as u32)) is None);
                    assert(store.outpoint_balances.spec_row((txid@, v as u32)) is None);
                }
            }
            let removed = store.outpoint_balances.take_out(txid, v as u32);
            proof {
                crate::allocation::lemma_cache_ok_same_authority_tables(*cache, st_pre, *store);
            }
            let ghost st_mid = *store;
            let key = crate::tx::OutPoint { txid: clone_bytes(txid), vout: v as u32 };
            store.outpoint_balances.insert(key, row);
            proof {
                crate::allocation::lemma_cache_ok_same_authority_tables(*cache, st_mid, *store);
                if spec_fresh_outpoints(st0, txid@) {
                    assert(removed is None);
                }
            }
        } else {
            proof {
                assert forall|k: RuneId| amt(al@[v as int], k) == 0 by {
                    crate::kv::lemma_seq_get_absent((al@[v as int]).entries@, k);
                }
            }
        }
        v = v + 1;
    }
    proof {
        assert(al@.skip(out_count as int) =~= Seq::empty());
        assert forall|k: RuneId|
            spec_opret_sum(al_a, *tx, out_count as int, k) == 0 by {}
        assert forall|k: RuneId|
            amt(*burned, k) == amt(*old(burned), k) + spec_opret_sum(al0, *tx, 0, k)
                + spec_sweep_burn(st0, *tx, pointer, is_cenotaph, unallocated, k) by {}
    }
    Ok(())
}

/// Accumulates a transaction's burned amounts into the block's burn table,
/// announcing each burn.
pub fn update_burned(
    burned_tx: &RuneTable<u128>,
    total: &mut RuneTable<u128>,
    events: &mut Vec<Event>,
    height: u32,
    txid: &Vec<u8>,
) -> (r: Result<(), UpdateError>)
    requires
        burned_tx.wf(),
        old(total).wf(),
    ensures
        final(total).wf(),
        r is Ok ==> forall|k: RuneId|
            amt(*final(total), k) == amt(*old(total), k) + amt(*burned_tx, k),
        r is Err ==> r == Err::<(), UpdateError>(UpdateError::Overflow),
        forall|j: int| 0 <= j < old(events)@.len() ==> final(events)@[j] == old(events)@[j],
        forall|j: int|
            old(events)@.len() <= j < final(events)@.len() ==> (#[trigger] final(events)@[j])
                is RuneBurned,
        r is Ok ==> final(events)@.len() == old(events)@.len() + burned_tx.entries@.len(),
        forall|j: int|
            old(events)@.len() <= j < final(events)@.len() ==> (
            match #[trigger] final(events)@[j] {
                Event::RuneBurned { block_height, txid: t, rune_id, amount } => block_height
                    == height && t@ == txid@,
                _ => false,
            }),
{
    let n = burned_tx.entries.len();
    let mut j: usize = 0;
    while j < n
        invariant
            j <= n,
            n == burned_tx.entries@.len(),
            burned_tx.wf(),
            total.wf(),
            forall|k: RuneId|
                amt(*total, k) == amt(*old(total), k) + row_amt(
                    burned_tx.entries@.take(j as int),
                    k,
                ),
            forall|jj: int| 0 <= jj < old(events)@.len() ==> events@[jj] == old(events)@[jj],
            events@.len() == old(events)@.len() + j,
            forall|jj: int|
                old(events)@.len() <= jj < events@.len() ==> (match #[trigger] events@[jj] {
                    Event::RuneBurned { block_height, txid: t, rune_id, amount } => block_height
                        == height && t@ == txid@,
                    _ => false,
                }),
        decreases n - j,
    {
        let pair = burned_tx.entries[j];
        proof {
            assert(pair == burned_tx.entries@[j as int]);
            assert(burned_tx.entries@.take(j + 1) =~= burned_tx.entries@.take(j as int).push(
                burned_tx.entries@[j as int],
            ));
            assert forall|k: RuneId|
                row_amt(burned_tx.entries@.take(j + 1), k) == row_amt(
                    burned_tx.entries@.take(j as int),
                    k,
                ) + (if pair.0 == k {
                    pair.1 as nat
                } else {
                    0nat
                }) by {
                lemma_row_amt_snoc(
                    burned_tx.entries@.take(j as int),
                    burned_tx.entries@[j as int],
                    k,
                );
            }
        }
        let ghost total_pre = *total;
        if !add_amount(total, pair.0, pair.1) {
            return Err(UpdateError::Overflow);
        }
        proof {
            assert forall|k: RuneId|
                amt(*total, k) == amt(*old(total), k) + row_amt(
                    burned_tx.entries@.take(j + 1),
                    k,
                ) by {
                assert(amt(total_pre, k) == amt(*old(total), k) + row_amt(
                    burned_tx.entries@.take(j as int),
                    k,
                ));
                if k == pair.0 {
                    assert(amt(*total, k) == amt(total_pre, k) + pair.1);
                } else {
                    assert(total.spec_get(k) == total_pre.spec_get(k));
                }
            }
        }
        events.push(
            Event::RuneBurned {
                block_height: height,
                txid: clone_bytes(txid),
                rune_id: pair.0,
                amount: pair.1,
            },
        );
        j = j + 1;
    }
    proof {
        assert(burned_tx.entries@.take(n as int) =~= burned_tx.entries@);
        assert forall|k: RuneId| row_amt(burned_tx.entries@, k) == amt(*burned_tx, k) by {
            lemma_amt_is_row_amt(*burned_tx, k);
        }
    }
    Ok(())
}

/// Folds the block's burned amounts into the domain entries; every burned
/// rune must have an entry.
pub fn update(store: &mut Store, burned: &RuneTable<u128>) -> (r: Result<(), UpdateError>)
    requires
        old(store).wf(),
        burned.wf(),
        forall|k: RuneId|
            (#[trigger] burned.spec_get(k)) is Some ==> old(store).entries.spec_get(k) is Some,
    ensures
        final(store).wf(),
        *final(store) == (Store { entries: final(store).entries, ..*old(store) }),
        r is Err ==> r == Err::<(), UpdateError>(UpdateError::Overflow),
        r is Ok ==> {
            &&& forall|k: RuneId|
                burned.spec_get(k) is None ==> final(store).entries.spec_get(k) == old(
                    store,
                ).entries.spec_get(k)
            &&& forall|k: RuneId|
                (#[trigger] burned.spec_get(k)) matches Some(b) ==> (match (
                old(store).entries.spec_get(k),
                final(store).entries.spec_get(k),
            ) {
                (Some(before), Some(after)) => after == RuneEntry {
                    burned: (before.burned + b) as u128,
                    ..before
                } && before.burned + b <= u128::MAX,
                _ => false,
            })
        },
{
    let n = burned.entries.len();
    let mut j: usize = 0;
    while j < n
        invariant
            j <= n,
            n == burned.entries@.len(),
            burned.wf(),
            store.wf(),
            *store == (Store { entries: store.entries, ..*old(store) }),
            forall|k: RuneId|
                (#[trigger] burned.spec_get(k)) is Some ==> old(store).entries.spec_get(k)
                    is Some,
            forall|jj: int|
                #![trigger burned.entries@[jj]]
                0 <= jj < j ==> (match (
                    old(store).entries.spec_get(burned.entries@[jj].0),
                    store.entries.spec_get(burned.entries@[jj].0),
                ) {
                    (Some(before), Some(after)) => after == RuneEntry {
                        burned: (before.burned + burned.entries@[jj].1) as u128,
                        ..before
                    } && before.burned + burned.entries@[jj].1 <= u128::MAX,
                    _ => false,
                }),
            forall|k: RuneId|
                (forall|jj: int| 0 <= jj < j ==> (#[trigger] burned.entries@[jj]).0 != k)
                    ==> store.entries.spec_get(k) == old(store).entries.spec_get(k),
        decreases n - j,
    {
        let pair = burned.entries[j];
        proof {
            assert(pair == burned.entries@[j as int]);
            crate::kv::lemma_seq_get_by_index(burned.entries@, j as int);
            assert(burned.spec_get(pair.0) == Some(pair.1));
            assert(old(store).entries.spec_get(pair.0) is Some);
            assert(store.entries.spec_get(pair.0) == old(store).entries.spec_get(pair.0)) by {
                assert forall|jj: int| 0 <= jj < j implies (#[trigger] burned.entries@[jj]).0
                    != pair.0 by {}
            }
        }
        let entry = match store.entries.take_out(pair.0) {
            Some(e) => e,
            None => {
                proof {
                    assert(false);
                }
                vstd::pervasive::unreached()
            },
        };
        let new_burned = match entry.burned.checked_add(pair.1) {
            Some(v) => v,
            None => {
                return Err(UpdateError::Overflow);
            },
        };
        let mut entry = entry;
        entry.burned = new_burned;
        store.entries.insert(pair.0, entry);
        proof {
            assert forall|jj: int|
                #![trigger burned.entries@[jj]]
                0 <= jj < j + 1 implies (match (
                old(store).entries.spec_get(burned.entries@[jj].0),
                store.entries.spec_get(burned.entries@[jj].0),
            ) {
                (Some(before), Some(after)) => after == RuneEntry {
                    burned: (before.burned + burned.entries@[jj].1) as u128,
                    ..before
                } && before.burned + burned.entries@[jj].1 <= u128::MAX,
                _ => false,
            }) by {
                if jj < j {
                    assert(burned.entries@[jj].0 != pair.0);
                }
            }
        }
        j = j + 1;
    }
    proof {
        assert forall|k: RuneId| (#[trigger] burned.spec_get(k)) is Some implies (match (
            old(store).entries.spec_get(k),
            store.entries.spec_get(k),
        ) {
            (Some(before), Some(after)) => after == RuneEntry {
                burned: (before.burned + burned.spec_get(k).unwrap()) as u128,
                ..before
            } && before.burned + burned.spec_get(k).unwrap() <= u128::MAX,
            _ => false,
        }) by {
            if !(exists|jj: int|
                0 <= jj < burned.entries@.len() && (#[trigger] burned.entries@[jj]).0 == k) {
                assert forall|jj: int|
                    0 <= jj < burned.entries@.len() implies burned.entries@[jj].0 != k by {}
                crate::kv::lemma_seq_get_absent(burned.entries@, k);
                assert(false);
            }
            let jj = choose|jj: int|
                0 <= jj < burned.entries@.len() && (#[trigger] burned.entries@[jj]).0 == k;
            crate::kv::lemma_seq_get_by_index(burned.entries@, jj);
        }
        assert forall|k: RuneId|
            burned.spec_get(k) is None implies store.entries.spec_get(k) == old(
            store,
        ).entries.spec_get(k) by {
            crate::kv::lemma_seq_get_none_absent(burned.entries@, k);
        }
    }
    Ok(())
}

/// The open-mint amount the artifact can credit to rune `k` at `height`.
pub open spec fn spec_mint_credit(
    st: Store,
    artifact: Option<&crate::runestone::Artifact>,
    height: u32,
    k: RuneId,
) -> nat {
    match artifact {
        Some(a) => match a.spec_mint() {
            Some(id) => if id == k {
                match st.entries.spec_get(id) {
                    Some(e) => match e.spec_mintable(height as u64) {
                        Ok(amount) => amount as nat,
                        Err(_) => 0,
                    },
                    None => 0,
                }
            } else {
                0
            },
            None => 0,
        },
        None => 0,
    }
}

/// The premine the artifact can credit to rune `k`: its etching's premine,
/// on the id this transaction would etch.
pub open spec fn spec_premine_credit(
    artifact: Option<&crate::runestone::Artifact>,
    height: u32,
    tx_index: u32,
    k: RuneId,
) -> nat {
    if k == (RuneId { block: height as u64, tx: tx_index }) {
        match artifact {
            Some(a) => match *a {
                crate::runestone::Artifact::Runestone(rs) => match rs.etching {
                    Some(e) => match e.premine {
                        Some(p) => p as nat,
                        None => 0,
                    },
                    None => 0,
                },
                crate::runestone::Artifact::Cenotaph(_) => 0,
            },
            None => 0,
        }
    } else {
        0
    }
}

/// Whether the transaction etches a rune: its artifact carries an etching
/// whose name, when present, is high enough, unreserved, unassigned and
/// committed to by the transaction.
pub open spec fn spec_etches(
    st: Store,
    node: NodeView,
    tx: Tx,
    artifact: Option<&crate::runestone::Artifact>,
    height: u32,
    minimum: Rune,
) -> bool {
    match artifact {
        Some(a) => match *a {
            crate::runestone::Artifact::Runestone(rs) => match rs.etching {
                Some(e) => match e.rune {
                    Some(r) => r.0 >= minimum.0 && !r.spec_is_reserved() && st.rune_to_id.spec_get(
                        r.0,
                    ) is None && spec_commits(node, tx, r, height),
                    None => true,
                },
                None => false,
            },
            crate::runestone::Artifact::Cenotaph(c) => match c.etching {
                Some(r) => r.0 >= minimum.0 && !r.spec_is_reserved() && st.rune_to_id.spec_get(
                    r.0,
                ) is None && spec_commits(node, tx, r, height),
                None => false,
            },
        },
        None => false,
    }
}

/// The premine actually credited to rune `k`: the etching's premine, on the
/// etched id, when the transaction etches through a proper runestone.
pub open spec fn spec_premine_actual(
    st: Store,
    node: NodeView,
    tx: Tx,
    artifact: Option<&crate::runestone::Artifact>,
    height: u32,
    tx_index: u32,
    minimum: Rune,
    k: RuneId,
) -> nat {
    if spec_etches(st, node, tx, artifact, height, minimum) {
        spec_premine_credit(artifact, height, tx_index, k)
    } else {
        0
    }
}

/// The pointer the artifact carries, if it is a proper runestone.
pub open spec fn spec_artifact_pointer(artifact: Option<&crate::runestone::Artifact>) -> Option<
    u32,
> {
    match artifact {
        Some(a) => match *a {
            crate::runestone::Artifact::Runestone(rs) => rs.pointer,
            crate::runestone::Artifact::Cenotaph(_) => None,
        },
        None => None,
    }
}

/// Whether the artifact carries no blacklist mutations, so the rune
/// blacklists the sweep consults are those the transaction started with.
pub open spec fn spec_no_blacklist_updates(artifact: Option<&crate::runestone::Artifact>) -> bool {
    match artifact {
        Some(a) => match *a {
            crate::runestone::Artifact::Runestone(rs) => match rs.authority {
                Some(u) => u.blacklist is None && u.unblacklist is None,
                None => true,
            },
            crate::runestone::Artifact::Cenotaph(_) => true,
        },
        None => true,
    }
}

/// Whether the artifact is a cenotaph.
pub open spec fn spec_artifact_cenotaph(artifact: Option<&crate::runestone::Artifact>) -> bool {
    match artifact {
        Some(a) => match *a {
            crate::runestone::Artifact::Cenotaph(_) => true,
            crate::runestone::Artifact::Runestone(_) => false,
        },
        None => false,
    }
}

/// Applies the decoded artifact: the open mint, the etching resolution,
/// the runestone's operations and the new rune's entry. Returns whether the
/// artifact is a cenotaph and the pointer it carries.
#[verifier::rlimit(100)]
fn apply_artifact(
    cache: &mut AuthorityContextCache,
    sc: &mut ScriptCache,
    store: &mut Store,
    node: &NodeView,
    tx: &Tx,
    txid: &Vec<u8>,
    tx_index: u32,
    height: u32,
    block_time: u32,
    minimum: Rune,
    artifact: Option<&crate::runestone::Artifact>,
    unallocated: &mut RuneTable<u128>,
    allocated: &mut Vec<RuneTable<u128>>,
    events: &mut Vec<Event>,
) -> (r: Result<(bool, Option<u32>), UpdateError>)
    requires
        old(store).wf(),
        old(cache).wf(),
        cache_ok(*old(cache), *old(store)),
        old(sc).wf(),
        old(sc).coherent(*node),
        old(unallocated).wf(),
        crate::executor::al_wf(old(allocated)@),
        old(allocated)@.len() == tx.outputs@.len(),
    ensures
        final(store).wf(),
        final(cache).wf(),
        final(cache).max_bytes == old(cache).max_bytes,
        cache_ok(*final(cache), *final(store)),
        final(sc).wf(),
        final(sc).max_bytes == old(sc).max_bytes,
        final(sc).coherent(*node),
        final(unallocated).wf(),
        crate::executor::al_wf(final(allocated)@),
        final(allocated)@.len() == old(allocated)@.len(),
        final(store).outpoint_balances == old(store).outpoint_balances,
        spec_no_blacklist_updates(artifact) ==> final(store).blacklist == old(store).blacklist,
        artifact is None ==> (*final(store) == *old(store) && *final(unallocated) == *old(
            unallocated,
        ) && final(allocated)@ == old(allocated)@ && final(events)@ == old(events)@),
        r is Err ==> (r == Err::<(bool, Option<u32>), UpdateError>(UpdateError::Overflow) || r
            == Err::<(bool, Option<u32>), UpdateError>(UpdateError::OversizedValue)),
        r matches Ok(p) ==> {
            &&& p.0 == spec_artifact_cenotaph(artifact)
            &&& p.1 == spec_artifact_pointer(artifact)
            &&& forall|k: RuneId|
                amt(*final(unallocated), k) + crate::sums::alloc_sum(final(allocated)@, k)
                    + spec_supply_extra_of(*old(store), k) <= amt(*old(unallocated), k)
                    + crate::sums::alloc_sum(old(allocated)@, k) + spec_mint_credit(
                    *old(store),
                    artifact,
                    height,
                    k,
                ) + spec_premine_credit(artifact, height, tx_index, k) + spec_supply_extra_of(
                    *final(store),
                    k,
                )
            &&& forall|k: RuneId|
                amt(*final(unallocated), k) + crate::sums::alloc_sum(final(allocated)@, k)
                    + spec_supply_extra_of(*old(store), k) == amt(*old(unallocated), k)
                    + crate::sums::alloc_sum(old(allocated)@, k) + spec_mint_credit(
                    *old(store),
                    artifact,
                    height,
                    k,
                ) + spec_premine_actual(
                    *old(store),
                    *node,
                    *tx,
                    artifact,
                    height,
                    tx_index,
                    minimum,
                    k,
                ) + spec_supply_extra_of(*final(store), k)
        },
{
    let mut etched_opt: Option<(RuneId, Rune)> = None;
    let mut is_cenotaph = false;
    let mut pointer: Option<u32> = None;
    match artifact {
        Some(art) => {
            let mint = art.mint();
            if let Err(e) = process_mint(store, height, txid, mint, unallocated, events) {
                return Err(e);
            }
            let (has_etching, rune_opt, premine, etching_copy): (
                bool,
                Option<Rune>,
                u128,
                Option<crate::runestone::Etching>,
            ) = match art {
                crate::runestone::Artifact::Runestone(rs) => {
                    match &rs.etching {
                        Some(et) => (
                            true,
                            et.rune,
                            match et.premine {
                                Some(p) => p,
                                None => 0,
                            },
                            Some(*et),
                        ),
                        None => (false, None, 0, None),
                    }
                },
                crate::runestone::Artifact::Cenotaph(c) => {
                    is_cenotaph = true;
                    (c.etching.is_some(), c.etching, 0, None)
                },
            };
            etched_opt = match etched(
                store,
                sc,
                node,
                tx,
                tx_index,
                height,
                minimum,
                has_etching,
                rune_opt,
            ) {
                Ok(o) => o,
                Err(e) => {
                    return Err(e);
                },
            };
            proof {
                crate::allocation::lemma_cache_ok_same_authority_tables(
                    *cache,
                    *store,
                    *store,
                );
                assert(match etched_opt {
                    Some(p) => spec_etches(*old(store), *node, *tx, artifact, height, minimum)
                        && p.0 == (RuneId { block: height as u64, tx: tx_index }),
                    None => !spec_etches(*old(store), *node, *tx, artifact, height, minimum),
                });
            }
            let etched_id = match &etched_opt {
                Some((id, _)) => Some(*id),
                None => None,
            };
            if !is_cenotaph {
                if let Err(e) = process_premine(unallocated, etched_id, premine) {
                    return Err(e);
                }
            }
            if let crate::runestone::Artifact::Runestone(rs) = art {
                pointer = rs.pointer;
                if let Err(e) = process_runestone(
                    cache,
                    sc,
                    store,
                    node,
                    tx,
                    rs,
                    etched_id,
                    unallocated,
                    allocated,
                ) {
                    return Err(e);
                }
            }
            if let Some((id, rune)) = &etched_opt {
                if let Err(e) = create_rune_entry(
                    cache,
                    sc,
                    store,
                    node,
                    tx,
                    txid,
                    *id,
                    *rune,
                    is_cenotaph,
                    etching_copy,
                    block_time,
                    height,
                    events,
                ) {
                    return Err(e);
                }
            }
        },
        None => {},
    }
    Ok((is_cenotaph, pointer))
}

/// Processes one transaction: consumes its inputs, applies the open mint,
/// resolves an etching, drives the runestone's operations, creates the
/// etched entry, burns or deposits the remainder and writes the balance
/// rows, and accumulates the burned amounts into the block's burn table.
#[verifier::rlimit(100)]
pub fn index_runes(
    cache: &mut AuthorityContextCache,
    sc: &mut ScriptCache,
    store: &mut Store,
    node: &NodeView,
    tx: &Tx,
    txid: &Vec<u8>,
    tx_index: u32,
    height: u32,
    block_time: u32,
    minimum: Rune,
    artifact: Option<&crate::runestone::Artifact>,
    burned_block: &mut RuneTable<u128>,
    events: &mut Vec<Event>,
) -> (r: Result<(), UpdateError>)
    requires
        old(store).wf(),
        old(cache).wf(),
        cache_ok(*old(cache), *old(store)),
        old(sc).wf(),
        old(sc).coherent(*node),
        old(burned_block).wf(),
        tx.outputs@.len() <= 0xffffffff,
    ensures
        final(store).wf(),
        final(cache).wf(),
        final(cache).max_bytes == old(cache).max_bytes,
        cache_ok(*final(cache), *final(store)),
        final(sc).wf(),
        final(sc).max_bytes == old(sc).max_bytes,
        final(sc).coherent(*node),
        final(burned_block).wf(),
        r is Err ==> (r == Err::<(), UpdateError>(UpdateError::Overflow) || r == Err::<
            (),
            UpdateError,
        >(UpdateError::OversizedValue)),
        artifact is None ==> {
            &&& final(store).authority_flags == old(store).authority_flags
            &&& final(store).authority_scripts == old(store).authority_scripts
            &&& final(store).minters == old(store).minters
            &&& final(store).blacklist == old(store).blacklist
            &&& final(store).supply_extra == old(store).supply_extra
            &&& final(store).entries == old(store).entries
            &&& final(store).rune_to_id == old(store).rune_to_id
            &&& final(store).runes == old(store).runes
        },
        r is Ok ==> forall|k: RuneId|
            amt(*final(burned_block), k) + row_sum(final(store).outpoint_balances.entries@, k)
                + spec_supply_extra_of(*old(store), k) <= amt(*old(burned_block), k) + row_sum(
                old(store).outpoint_balances.entries@,
                k,
            ) + spec_mint_credit(*old(store), artifact, height, k) + spec_premine_credit(
                artifact,
                height,
                tx_index,
                k,
            ) + spec_supply_extra_of(*final(store), k),
        (r is Ok && spec_fresh_outpoints(*old(store), txid@)
            && crate::allocation::spec_distinct_prevouts(*tx) && spec_no_blacklist_updates(
            artifact,
        )) ==> forall|k: RuneId|
            spec_no_sweep_drop(
                *old(store),
                *tx,
                spec_artifact_pointer(artifact),
                spec_artifact_cenotaph(artifact),
                k,
            ) ==> amt(*final(burned_block), k) + row_sum(
                final(store).outpoint_balances.entries@,
                k,
            ) + spec_supply_extra_of(*old(store), k) == amt(*old(burned_block), k) + row_sum(
                old(store).outpoint_balances.entries@,
                k,
            ) + spec_mint_credit(*old(store), artifact, height, k) + spec_premine_actual(
                *old(store),
                *node,
                *tx,
                artifact,
                height,
                tx_index,
                minimum,
                k,
            ) + spec_supply_extra_of(*final(store), k),
{
    let mut unallocated = match calculate_unallocated(store, cache, sc, node, tx) {
        Ok(u) => u,
        Err(e) => {
            return Err(e);
        },
    };
    let ghost st1 = *store;
    let ghost un1 = unallocated;
    let mut allocated: Vec<RuneTable<u128>> = Vec::new();
    let outputs_len = tx.outputs.len();
    while allocated.len() < outputs_len
        invariant
            allocated@.len() <= outputs_len,
            crate::executor::al_wf(allocated@),
            forall|k: RuneId| crate::sums::alloc_sum(allocated@, k) == 0,
        decreases outputs_len - allocated@.len(),
    {
        let t: RuneTable<u128> = RuneTable::new();
        proof {
            assert forall|k: RuneId|
                crate::sums::alloc_sum(allocated@.push(t), k) == crate::sums::alloc_sum(
                    allocated@,
                    k,
                ) + amt(t, k) by {
                crate::sums::lemma_alloc_sum_push(allocated@, t, k);
            }
        }
        allocated.push(t);
    }
    let ghost al1 = allocated@;
    let (is_cenotaph, pointer) = match apply_artifact(
        cache,
        sc,
        store,
        node,
        tx,
        txid,
        tx_index,
        height,
        block_time,
        minimum,
        artifact,
        &mut unallocated,
        &mut allocated,
        events,
    ) {
        Ok(p) => p,
        Err(e) => {
            return Err(e);
        },
    };
    let ghost st_mid = *store;
    let ghost un_mid = unallocated;
    let ghost al_mid = allocated@;
    proof {
        assert(is_cenotaph == spec_artifact_cenotaph(artifact));
        assert(pointer == spec_artifact_pointer(artifact));
        assert(st1.entries == old(store).entries);
        assert(st1.rune_to_id == old(store).rune_to_id);
        assert(st1.supply_extra == old(store).supply_extra);
        assert forall|k: RuneId|
            spec_mint_credit(st1, artifact, height, k) == spec_mint_credit(
                *old(store),
                artifact,
                height,
                k,
            ) by {}
        assert(spec_etches(st1, *node, *tx, artifact, height, minimum) == spec_etches(
            *old(store),
            *node,
            *tx,
            artifact,
            height,
            minimum,
        ));
        assert forall|k: RuneId|
            spec_premine_actual(st1, *node, *tx, artifact, height, tx_index, minimum, k)
                == spec_premine_actual(
                *old(store),
                *node,
                *tx,
                artifact,
                height,
                tx_index,
                minimum,
                k,
            ) by {}
        assert forall|k: RuneId|
            spec_supply_extra_of(st1, k) == spec_supply_extra_of(*old(store), k) by {}
        assert forall|k: RuneId| amt(un1, k) + row_sum(st1.outpoint_balances.entries@, k)
            == row_sum(old(store).outpoint_balances.entries@, k) by {}
        assert(st_mid.outpoint_balances == st1.outpoint_balances);
    }
    let mut burned_tx: RuneTable<u128> = RuneTable::new();
    let ghost btx0 = burned_tx;
    if let Err(e) = process_cenotaph_and_balances(
        cache,
        store,
        tx,
        txid,
        is_cenotaph,
        pointer,
        unallocated,
        allocated,
        &mut burned_tx,
        events,
        height,
    ) {
        return Err(e);
    }
    let ghost st_f = *store;
    let r = update_burned(&burned_tx, burned_block, events, height, txid);
    proof {
        if r is Ok {
            assert forall|k: RuneId|
                amt(*burned_block, k) + row_sum(store.outpoint_balances.entries@, k)
                    + spec_supply_extra_of(*old(store), k) <= amt(*old(burned_block), k)
                    + row_sum(old(store).outpoint_balances.entries@, k) + spec_mint_credit(
                    *old(store),
                    artifact,
                    height,
                    k,
                ) + spec_premine_credit(artifact, height, tx_index, k) + spec_supply_extra_of(
                    *store,
                    k,
                ) by {
                assert(amt(btx0, k) == 0);
                assert(amt(burned_tx, k) + row_sum(st_f.outpoint_balances.entries@, k) <= amt(
                    btx0,
                    k,
                ) + row_sum(st_mid.outpoint_balances.entries@, k) + amt(un_mid, k)
                    + crate::sums::alloc_sum(al_mid, k));
                assert(amt(*burned_block, k) == amt(*old(burned_block), k) + amt(burned_tx, k));
                assert(st_f.supply_extra == st_mid.supply_extra);
                assert(spec_supply_extra_of(st_f, k) == spec_supply_extra_of(st_mid, k));
            }
            if spec_fresh_outpoints(*old(store), txid@) && crate::allocation::spec_distinct_prevouts(
                *tx,
            ) && spec_no_blacklist_updates(artifact) {
                assert(spec_fresh_outpoints(st_mid, txid@)) by {
                    assert forall|v: u32|
                        st_mid.outpoint_balances.spec_row((txid@, v)) is None by {
                        let key = (txid@, v);
                        if crate::allocation::spec_spent(*tx, key) {
                            let i = choose|i: int|
                                0 <= i < tx.inputs@.len() && (
                                #[trigger] tx.inputs@[i]).prevout.key() == key;
                            assert(crate::allocation::spec_spent_row_after(
                                *old(store),
                                *node,
                                st1,
                                key,
                            ));
                            assert(old(store).outpoint_balances.spec_row(key) is None);
                        } else {
                            assert(st1.outpoint_balances.spec_row(key) == old(
                                store,
                            ).outpoint_balances.spec_row(key));
                        }
                    }
                }
                assert(st_mid.blacklist == old(store).blacklist);
                assert forall|k: RuneId|
                    spec_no_sweep_drop(
                        *old(store),
                        *tx,
                        spec_artifact_pointer(artifact),
                        spec_artifact_cenotaph(artifact),
                        k,
                    ) implies amt(*burned_block, k) + row_sum(
                    store.outpoint_balances.entries@,
                    k,
                ) + spec_supply_extra_of(*old(store), k) == amt(*old(burned_block), k) + row_sum(
                    old(store).outpoint_balances.entries@,
                    k,
                ) + spec_mint_credit(*old(store), artifact, height, k) + spec_premine_actual(
                    *old(store),
                    *node,
                    *tx,
                    artifact,
                    height,
                    tx_index,
                    minimum,
                    k,
                ) + spec_supply_extra_of(*store, k) by {
                    crate::executor::lemma_is_blacklisted_stable(*old(store), st_mid, k);
                    assert(spec_no_sweep_drop(st_mid, *tx, pointer, is_cenotaph, k));
                    assert(amt(burned_tx, k) + row_sum(st_f.outpoint_balances.entries@, k)
                        == amt(btx0, k) + row_sum(st_mid.outpoint_balances.entries@, k) + amt(
                        un_mid,
                        k,
                    ) + crate::sums::alloc_sum(al_mid, k));
                }
            }
        }
    }
    r
}

} // verus!
