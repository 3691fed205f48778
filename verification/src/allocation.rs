//! Consuming transaction inputs: removes their stored balance rows and
//! splits the amounts into spendable and locked.
use vstd::prelude::*;

use crate::RuneId;
use crate::UpdateError;
use crate::authority::{cache_ok, ctx_matches, is_blacklisted, spec_is_blacklisted};
use crate::bytes::clone_bytes;
use crate::context::{AuthorityContext, AuthorityContextCache};
use crate::kv::{row_amt, row_sum, RuneTable};
use crate::script_cache::{NodeView, ScriptCache};
use crate::store::Store;
use crate::sums::{add_amount, amt, lemma_row_amt_snoc};
use crate::tx::{OutPoint, Tx};

verus! {

/// Contexts do not read the balance rows: a store differing only there
/// matches the same contexts.
pub proof fn lemma_cache_ok_same_authority_tables(
    cache: AuthorityContextCache,
    st1: Store,
    st2: Store,
)
    requires
        cache_ok(cache, st1),
        st2.authority_flags == st1.authority_flags,
        st2.authority_scripts == st1.authority_scripts,
        st2.minters == st1.minters,
        st2.blacklist == st1.blacklist,
        st2.supply_extra == st1.supply_extra,
    ensures
        cache_ok(cache, st2),
{
    assert forall|id: RuneId| (#[trigger] cache.spec_cget(id)) is Some implies ctx_matches(
        cache.spec_cget(id).unwrap(),
        st2,
        id,
    ) by {
        assert(ctx_matches(cache.spec_cget(id).unwrap(), st1, id));
        assert(crate::authority::spec_blob_of(st2, id) == crate::authority::spec_blob_of(st1, id));
        assert(st2.minters.spec_multi(id) == st1.minters.spec_multi(id));
        assert(st2.blacklist.spec_multi(id) == st1.blacklist.spec_multi(id));
    }
}

/// Whether the holder of outpoint `key` is blacklisted for rune `id`: the
/// outpoint's scriptPubKey, when the node knows it, is on the rune's
/// blacklist.
pub open spec fn spec_outpoint_blacklisted(
    st: Store,
    node: NodeView,
    key: (Seq<u8>, u32),
    id: RuneId,
) -> bool {
    match node.spec_script(key) {
        Some(s) => spec_is_blacklisted(st, id, s),
        None => false,
    }
}

/// The pairs of a balance row whose rune blacklists the row's own outpoint:
/// what a spend leaves locked under the consumed outpoint.
pub open spec fn spec_locked_filter(
    st: Store,
    node: NodeView,
    key: (Seq<u8>, u32),
    row: Seq<(RuneId, u128)>,
) -> Seq<(RuneId, u128)>
    decreases row.len(),
{
    if row.len() == 0 {
        Seq::empty()
    } else {
        let rest = spec_locked_filter(st, node, key, row.drop_last());
        if spec_outpoint_blacklisted(st, node, key, row.last().0) {
            rest.push(row.last())
        } else {
            rest
        }
    }
}

/// Whether some input of the transaction spends outpoint `k`.
pub open spec fn spec_spent(tx: Tx, k: (Seq<u8>, u32)) -> bool {
    exists|i: int| 0 <= i < tx.inputs@.len() && (#[trigger] tx.inputs@[i]).prevout.key() == k
}

/// Whether the transaction's inputs spend pairwise distinct outpoints.
pub open spec fn spec_distinct_prevouts(tx: Tx) -> bool {
    forall|i: int, j: int|
        0 <= i < j < tx.inputs@.len() ==> (#[trigger] tx.inputs@[i]).prevout.key() != (
        #[trigger] tx.inputs@[j]).prevout.key()
}

/// The row left for one spent outpoint: absent, or exactly the locked pairs.
pub open spec fn spec_spent_row_after(
    st0: Store,
    node: NodeView,
    st1: Store,
    key: (Seq<u8>, u32),
) -> bool {
    match st0.outpoint_balances.spec_row(key) {
        None => st1.outpoint_balances.spec_row(key) is None,
        Some(row) => {
            let locked = spec_locked_filter(st0, node, key, row);
            if locked.len() == 0 {
                st1.outpoint_balances.spec_row(key) is None
            } else {
                st1.outpoint_balances.spec_row(key) == Some(locked)
            }
        },
    }
}

/// Removes every input's balance row, credits non-blacklisted amounts to
/// the returned table, and rewrites blacklisted amounts under the consumed
/// outpoint as locked. Fails only when a balance would overflow.
pub fn calculate_unallocated(
    store: &mut Store,
    cache: &mut AuthorityContextCache,
    sc: &mut ScriptCache,
    node: &NodeView,
    tx: &Tx,
) -> (r: Result<RuneTable<u128>, UpdateError>)
    requires
        old(store).wf(),
        old(cache).wf(),
        cache_ok(*old(cache), *old(store)),
        old(sc).wf(),
        old(sc).coherent(*node),
    ensures
        final(store).wf(),
        final(store).authority_flags == old(store).authority_flags,
        final(store).authority_scripts == old(store).authority_scripts,
        final(store).minters == old(store).minters,
        final(store).blacklist == old(store).blacklist,
        final(store).supply_extra == old(store).supply_extra,
        final(store).entries == old(store).entries,
        final(store).rune_to_id == old(store).rune_to_id,
        final(store).runes == old(store).runes,
        final(store).reserved_runes == old(store).reserved_runes,
        final(cache).wf(),
        final(cache).max_bytes == old(cache).max_bytes,
        cache_ok(*final(cache), *final(store)),
        final(sc).wf(),
        final(sc).max_bytes == old(sc).max_bytes,
        final(sc).coherent(*node),
        forall|k: (Seq<u8>, u32)|
            !spec_spent(*tx, k) ==> final(store).outpoint_balances.spec_row(k) == old(
                store,
            ).outpoint_balances.spec_row(k),
        match r {
            Ok(unalloc) => {
                &&& unalloc.wf()
                &&& forall|id: RuneId|
                    amt(unalloc, id) + row_sum(final(store).outpoint_balances.entries@, id)
                        == row_sum(old(store).outpoint_balances.entries@, id)
                &&& spec_distinct_prevouts(*tx) ==> forall|i: int|
                    0 <= i < tx.inputs@.len() ==> spec_spent_row_after(
                        *old(store),
                        *node,
                        *final(store),
                        (#[trigger] tx.inputs@[i]).prevout.key(),
                    )
            },
            Err(e) => e == UpdateError::Overflow,
        },
{
    let mut unalloc: RuneTable<u128> = RuneTable::new();
    let n = tx.inputs.len();
    let mut i: usize = 0;
    while i < n
        invariant
            i <= n,
            n == tx.inputs@.len(),
            store.wf(),
            store.authority_flags == old(store).authority_flags,
            store.authority_scripts == old(store).authority_scripts,
            store.minters == old(store).minters,
            store.blacklist == old(store).blacklist,
            store.supply_extra == old(store).supply_extra,
            store.entries == old(store).entries,
            store.rune_to_id == old(store).rune_to_id,
            store.runes == old(store).runes,
            store.reserved_runes == old(store).reserved_runes,
            cache.wf(),
            cache.max_bytes == old(cache).max_bytes,
            cache_ok(*cache, *store),
            sc.wf(),
            sc.max_bytes == old(sc).max_bytes,
            sc.coherent(*node),
            unalloc.wf(),
            forall|id: RuneId|
                amt(unalloc, id) + row_sum(store.outpoint_balances.entries@, id) == row_sum(
                    old(store).outpoint_balances.entries@,
                    id,
                ),
            forall|k: (Seq<u8>, u32)|
                !spec_spent(*tx, k) ==> store.outpoint_balances.spec_row(k) == old(
                    store,
                ).outpoint_balances.spec_row(k),
            spec_distinct_prevouts(*tx) ==> forall|i2: int|
                0 <= i2 < i ==> spec_spent_row_after(
                    *old(store),
                    *node,
                    *store,
                    (#[trigger] tx.inputs@[i2]).prevout.key(),
                ),
            spec_distinct_prevouts(*tx) ==> forall|i2: int|
                i <= i2 < n ==> store.outpoint_balances.spec_row(
                    (#[trigger] tx.inputs@[i2]).prevout.key(),
                ) == old(store).outpoint_balances.spec_row(tx.inputs@[i2].prevout.key()),
        decreases n - i,
    {
        let input = &tx.inputs[i];
        let ghost key = input.prevout.key();
        let ghost st_before = *store;
        let removed = store.outpoint_balances.take_out(&input.prevout.txid, input.prevout.vout);
        proof {
            lemma_cache_ok_same_authority_tables(*cache, st_before, *store);
        }
        if let Some(row) = removed {
            let ghost unalloc_start = unalloc;
            let ghost mid_entries = store.outpoint_balances.entries@;
            let ghost mid_store = *store;
            let mut locked: Vec<(RuneId, u128)> = Vec::new();
            let row_len = row.len();
            let mut j: usize = 0;
            while j < row_len
                invariant
                    j <= row_len,
                    row_len == row@.len(),
                    store.wf(),
                    *store == mid_store,
                    store.outpoint_balances.entries@ == mid_entries,
                    store.authority_flags == old(store).authority_flags,
                    store.authority_scripts == old(store).authority_scripts,
                    store.minters == old(store).minters,
                    store.blacklist == old(store).blacklist,
                    store.supply_extra == old(store).supply_extra,
                    store.entries == old(store).entries,
                    store.rune_to_id == old(store).rune_to_id,
                    store.runes == old(store).runes,
                    store.reserved_runes == old(store).reserved_runes,
                    cache.wf(),
                    cache.max_bytes == old(cache).max_bytes,
                    cache_ok(*cache, *store),
                    sc.wf(),
                    sc.max_bytes == old(sc).max_bytes,
                    sc.coherent(*node),
                    unalloc.wf(),
                    key == tx.inputs@[i as int].prevout.key(),
                    key == (input.prevout.txid@, input.prevout.vout),
                    i < n,
                    forall|k: (Seq<u8>, u32)|
                        !spec_spent(*tx, k) ==> store.outpoint_balances.spec_row(k) == old(
                            store,
                        ).outpoint_balances.spec_row(k),
                    forall|id: RuneId|
                        amt(unalloc_start, id) + row_sum(mid_entries, id) + row_amt(row@, id)
                            == row_sum(old(store).outpoint_balances.entries@, id),
                    forall|id: RuneId|
                        amt(unalloc, id) + row_amt(locked@, id) == amt(unalloc_start, id)
                            + row_amt(row@.take(j as int), id),
                    locked@ == spec_locked_filter(*old(store), *node, key, row@.take(j as int)),
                decreases row_len - j,
            {
                let (rid, amount) = row[j];
                proof {
                    assert(row@.take(j + 1) =~= row@.take(j as int).push(row@[j as int]));
                    assert(row@.take(j + 1).drop_last() =~= row@.take(j as int));
                    assert(row@.take(j + 1).last() == row@[j as int]);
                    assert forall|id: RuneId|
                        row_amt(row@.take(j + 1), id) == row_amt(row@.take(j as int), id) + (
                        if row@[j as int].0 == id {
                            row@[j as int].1 as nat
                        } else {
                            0nat
                        }) by {
                        lemma_row_amt_snoc(row@.take(j as int), row@[j as int], id);
                    }
                }
                let fetched = sc.get_script_pubkey(node, &input.prevout.txid, input.prevout.vout);
                let bl = match fetched {
                    Some(script) => {
                        let b = is_blacklisted(cache, store, rid, &script);
                        proof {
                            assert(spec_is_blacklisted(*store, rid, script@)
                                == spec_is_blacklisted(*old(store), rid, script@)) by {
                                assert(crate::authority::spec_ctx_blacklist(*store, rid)
                                    == crate::authority::spec_ctx_blacklist(*old(store), rid)) by {
                                    assert(store.blacklist.spec_multi(rid) == old(
                                        store,
                                    ).blacklist.spec_multi(rid));
                                }
                            }
                            assert(node.spec_script(key) == Some(script@));
                            assert(b == spec_outpoint_blacklisted(*old(store), *node, key, rid));
                        }
                        b
                    },
                    None => {
                        proof {
                            assert(node.spec_script(key) is None);
                            assert(!spec_outpoint_blacklisted(*old(store), *node, key, rid));
                        }
                        false
                    },
                };
                proof {
                    assert(bl == spec_outpoint_blacklisted(*old(store), *node, key, rid));
                }
                if bl {
                    proof {
                        assert forall|id: RuneId|
                            row_amt(locked@.push((rid, amount)), id) == row_amt(locked@, id) + (
                            if rid == id {
                                amount as nat
                            } else {
                                0nat
                            }) by {
                            lemma_row_amt_snoc(locked@, (rid, amount), id);
                        }
                    }
                    locked.push((rid, amount));
                } else {
                    if !add_amount(&mut unalloc, rid, amount) {
                        return Err(UpdateError::Overflow);
                    }
                }
                j = j + 1;
            }
            proof {
                assert(row@.take(row_len as int) =~= row@);
            }
            if locked.len() > 0 {
                let ghost st_mid = *store;
                let opkey = OutPoint {
                    txid: clone_bytes(&input.prevout.txid),
                    vout: input.prevout.vout,
                };
                store.outpoint_balances.insert(opkey, locked);
                proof {
                    lemma_cache_ok_same_authority_tables(*cache, st_mid, *store);
                }
            }
            proof {
                if spec_distinct_prevouts(*tx) {
                    assert(spec_spent_row_after(*old(store), *node, *store, key));
                    assert forall|i2: int| 0 <= i2 < i + 1 implies spec_spent_row_after(
                        *old(store),
                        *node,
                        *store,
                        (#[trigger] tx.inputs@[i2]).prevout.key(),
                    ) by {
                        if i2 < i {
                            assert(tx.inputs@[i2].prevout.key() != key);
                        }
                    }
                }
            }
        } else {
            proof {
                if spec_distinct_prevouts(*tx) {
                    assert(spec_spent_row_after(*old(store), *node, *store, key));
                }
            }
        }
        proof {
            assert forall|k: (Seq<u8>, u32)| !spec_spent(*tx, k) implies store
                .outpoint_balances.spec_row(k) == old(store).outpoint_balances.spec_row(k) by {
                assert(tx.inputs@[i as int].prevout.key() != k);
            }
        }
        i = i + 1;
    }
    Ok(unalloc)
}

} // verus!
