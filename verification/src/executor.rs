//! Interpreting a decoded runestone: authority transfer, roster updates,
//! and edicts, in that fixed order.
use vstd::prelude::*;

use crate::RuneId;
use crate::UpdateError;
use crate::authority::{cache_ok, check_authority, check_is_minter, ctx_matches,
    decode_compact_entry, get_authority_script, get_context_cached, get_supply_extra, kind_at,
    is_blacklisted, set_supply_extra, spec_check_authority, spec_check_is_minter,
    spec_ctx_blacklist, spec_decode_entry, spec_effective_flags, spec_is_blacklisted,
    spec_kind_at, spec_supply_extra_of};
use crate::authority_bits::{AuthorityBits, AuthorityKind};
use crate::bytes::{clone_bytes, extend_bytes};
use crate::compact_script::{CompactScript, CompactScriptKind};
use crate::context::{AuthorityContext, AuthorityContextCache};
use crate::kv::RuneTable;
use crate::runestone::{Edict, Runestone, SetAuthority};
use crate::sums::{add_amount, alloc_sum, amt, get_amount, lemma_alloc_sum_update, sub_amount};
use crate::script_cache::{NodeView, ScriptCache};
use crate::store::Store;
use crate::tx::Tx;

verus! {

/// Whether the rune's effective flags carry the given role.
pub open spec fn spec_has_flag(st: Store, id: RuneId, kind: AuthorityKind) -> bool {
    spec_effective_flags(st, id) & kind.spec_mask() != 0
}

/// Reads one effective flag of a rune.
pub fn has_flag(
    cache: &mut AuthorityContextCache,
    store: &Store,
    id: RuneId,
    kind: AuthorityKind,
) -> (r: bool)
    requires
        store.wf(),
        old(cache).wf(),
        cache_ok(*old(cache), *store),
    ensures
        final(cache).wf(),
        final(cache).max_bytes == old(cache).max_bytes,
        cache_ok(*final(cache), *store),
        forall|k: RuneId, c: AuthorityContext|
            final(cache).spec_cget(k) == Some(c) ==> (old(cache).spec_cget(k) == Some(c) || k
                == id),
        r == spec_has_flag(*store, id, kind),
{
    get_context_cached(cache, store, id);
    let ctx = cache.peek(id);
    proof {
        assert(ctx_matches(*ctx, *store, id));
    }
    ctx.flags.contains(kind)
}

/// State of the merge walk over an existing authority-scripts blob.
pub ghost struct MergeWalk {
    pub out: Seq<u8>,
    pub offset: int,
}

/// One slot of the merge: write the incoming compact for requested kinds,
/// carry the existing slot over otherwise.
pub open spec fn spec_merge_step(
    authorities: u8,
    existing: Seq<u8>,
    existing_presence: u8,
    presence: u8,
    ck: u8,
    cl: u8,
    body: Seq<u8>,
    w: MergeWalk,
    kind: AuthorityKind,
) -> MergeWalk {
    if presence & kind.spec_mask() == 0 {
        w
    } else if authorities & kind.spec_mask() != 0 {
        let out = w.out + seq![ck, cl] + body;
        if existing_presence & kind.spec_mask() != 0 && w.offset + 1 < existing.len() {
            MergeWalk { out, offset: w.offset + 2 + existing[w.offset + 1] }
        } else {
            MergeWalk { out, offset: w.offset }
        }
    } else if existing_presence & kind.spec_mask() != 0 && w.offset + 1 < existing.len() {
        let bl = existing[w.offset + 1] as int;
        if w.offset + 2 + bl <= existing.len() {
            MergeWalk {
                out: w.out + existing.subrange(w.offset, w.offset + 2 + bl),
                offset: w.offset + 2 + bl,
            }
        } else {
            w
        }
    } else {
        w
    }
}

/// The merge walk after the first `n` slots.
pub open spec fn spec_merge_n(
    authorities: u8,
    existing: Seq<u8>,
    existing_presence: u8,
    presence: u8,
    ck: u8,
    cl: u8,
    body: Seq<u8>,
    n: int,
) -> MergeWalk
    decreases n,
{
    if n <= 0 {
        MergeWalk { out: seq![presence], offset: 1 }
    } else {
        spec_merge_step(
            authorities,
            existing,
            existing_presence,
            presence,
            ck,
            cl,
            body,
            spec_merge_n(authorities, existing, existing_presence, presence, ck, cl, body, n - 1),
            spec_kind_at(n - 1),
        )
    }
}

/// The merged authority-scripts blob: for each kind in fixed order that the
/// new presence marks, the incoming script where requested, else the
/// existing one.
pub open spec fn spec_merge(
    authorities: u8,
    existing: Seq<u8>,
    existing_presence: u8,
    presence: u8,
    ck: u8,
    cl: u8,
    body: Seq<u8>,
) -> Seq<u8> {
    spec_merge_n(authorities, existing, existing_presence, presence, ck, cl, body, 3).out
}

/// The significant three flag bits see through truncation.
proof fn lemma_truncated_mask(x: u8, m: u8)
    requires
        m == 1 || m == 2 || m == 4,
    ensures
        ((x & 7) & m != 0) == (x & m != 0),
{
    assert(((x & 7) & m != 0) == (x & m != 0)) by (bit_vector)
        requires
            m == 1 || m == 2 || m == 4,
    ;
}

/// Merges a new compact script into an existing blob; the slot order
/// Mint, Blacklist, Master is preserved.
pub fn merge_authority_scripts(
    authorities: AuthorityBits,
    existing_blob: &Vec<u8>,
    existing_presence: AuthorityBits,
    presence: AuthorityBits,
    compact: &CompactScript,
    compact_body_len: u8,
) -> (r: Vec<u8>)
    requires
        compact.body@.len() == compact_body_len,
    ensures
        r@ == spec_merge(
            authorities.spec_bits(),
            existing_blob@,
            existing_presence.spec_bits(),
            presence.spec_bits(),
            compact.kind.spec_byte(),
            compact_body_len,
            compact.body@,
        ),
{
    let mut out: Vec<u8> = Vec::new();
    out.push(presence.bits());
    let mut offset: u128 = 1;
    let ghost ab = authorities.spec_bits();
    let ghost ep = existing_presence.spec_bits();
    let ghost pb = presence.spec_bits();
    let ghost ck = compact.kind.spec_byte();
    let ghost body = compact.body@;
    proof {
        assert(out@ =~= seq![pb]);
    }
    let mut i: usize = 0;
    while i < 3
        invariant
            i <= 3,
            compact.body@.len() == compact_body_len,
            ab == authorities.spec_bits(),
            ep == existing_presence.spec_bits(),
            pb == presence.spec_bits(),
            ck == compact.kind.spec_byte(),
            body == compact.body@,
            ({
                let w = spec_merge_n(
                    ab,
                    existing_blob@,
                    ep,
                    pb,
                    ck,
                    compact_body_len,
                    body,
                    i as int,
                );
                &&& w.out == out@
                &&& w.offset == offset
            }),
            offset <= 1 + 257 * (i as int),
        decreases 3 - i,
    {
        let kind = kind_at(i);
        proof {
            lemma_truncated_mask(presence.0, kind.spec_mask());
            lemma_truncated_mask(authorities.0, kind.spec_mask());
            lemma_truncated_mask(existing_presence.0, kind.spec_mask());
        }
        if presence.contains(kind) {
            if authorities.contains(kind) {
                out.push(compact.kind.kind_byte());
                out.push(compact_body_len);
                extend_bytes(&mut out, &compact.body);
                if existing_presence.contains(kind) && offset + 1 < (existing_blob.len()
                    as u128) {
                    let off = offset as usize;
                    offset = offset + 2 + (existing_blob[off + 1] as u128);
                }
            } else {
                if existing_presence.contains(kind) && offset + 1 < (existing_blob.len()
                    as u128) {
                    let off = offset as usize;
                    let bl = existing_blob[off + 1] as usize;
                    if offset + 2 + (bl as u128) <= (existing_blob.len() as u128) {
                        let mut k: usize = off;
                        let stop = off + 2 + bl;
                        while k < stop
                            invariant
                                off <= k <= stop,
                                stop == off + 2 + bl,
                                stop <= existing_blob@.len(),
                                out@ == spec_merge_n(
                                    ab,
                                    existing_blob@,
                                    ep,
                                    pb,
                                    ck,
                                    compact_body_len,
                                    body,
                                    i as int,
                                ).out + existing_blob@.subrange(off as int, k as int),
                            decreases stop - k,
                        {
                            out.push(existing_blob[k]);
                            proof {
                                assert(out@ =~= spec_merge_n(
                                    ab,
                                    existing_blob@,
                                    ep,
                                    pb,
                                    ck,
                                    compact_body_len,
                                    body,
                                    i as int,
                                ).out + existing_blob@.subrange(off as int, k + 1));
                            }
                            k = k + 1;
                        }
                        offset = offset + 2 + (bl as u128);
                    }
                }
            }
        }
        i = i + 1;
    }
    out
}


/// A store write that touches only rune `id`'s authority rows leaves every
/// other cached context accurate.
pub proof fn lemma_cache_ok_after_id_write(
    cache: AuthorityContextCache,
    st1: Store,
    st2: Store,
    id: RuneId,
)
    requires
        cache_ok(cache, st1),
        cache.spec_cget(id) is None,
        forall|k: RuneId|
            k != id ==> st2.authority_flags.spec_get(k) == st1.authority_flags.spec_get(k),
        forall|k: RuneId|
            k != id ==> st2.authority_scripts.spec_get(k) == st1.authority_scripts.spec_get(k),
        forall|k: RuneId| k != id ==> st2.minters.spec_get(k) == st1.minters.spec_get(k),
        forall|k: RuneId| k != id ==> st2.blacklist.spec_get(k) == st1.blacklist.spec_get(k),
        forall|k: RuneId| k != id ==> st2.supply_extra.spec_get(k) == st1.supply_extra.spec_get(k),
    ensures
        cache_ok(cache, st2),
{
    assert forall|k: RuneId| (#[trigger] cache.spec_cget(k)) is Some implies ctx_matches(
        cache.spec_cget(k).unwrap(),
        st2,
        k,
    ) by {
        assert(k != id);
        assert(ctx_matches(cache.spec_cget(k).unwrap(), st1, k));
        assert(crate::authority::spec_blob_of(st2, k) == crate::authority::spec_blob_of(st1, k));
        assert(st2.minters.spec_multi(k) == st1.minters.spec_multi(k));
        assert(st2.blacklist.spec_multi(k) == st1.blacklist.spec_multi(k));
        assert(crate::authority::spec_supply_extra_of(st2, k)
            == crate::authority::spec_supply_extra_of(st1, k));
        assert(crate::authority::spec_stored_flag_bits(st2, k)
            == crate::authority::spec_stored_flag_bits(st1, k));
    }
}

/// The authority set of a SetAuthority after the flag filter: the
/// blacklist role is dropped when the rune does not allow blacklisting.
pub open spec fn spec_filtered_authorities(st: Store, id: RuneId, ab: u8) -> u8 {
    if ab & 2 != 0 && !spec_has_flag(st, id, AuthorityKind::Blacklist) {
        (ab & 7) & 5
    } else {
        ab & 7
    }
}

/// Whether every role of the set can be matched against the transaction's
/// inputs.
pub open spec fn spec_all_authorized(st: Store, node: NodeView, tx: Tx, id: RuneId, ab: u8) -> bool {
    forall|j: int|
        0 <= j < AuthorityBits(ab).spec_kinds().len() ==> spec_check_authority(
            st,
            node,
            tx,
            id,
            #[trigger] AuthorityBits(ab).spec_kinds()[j],
        )
}

/// The kind of the current master authority script, taproot by default.
pub open spec fn spec_master_kind(st: Store, id: RuneId) -> CompactScriptKind {
    match crate::authority::spec_ctx_slot(st, id, AuthorityKind::Master) {
        Some(p) => p.0,
        None => CompactScriptKind::P2TR,
    }
}

/// The stored blob a merge starts from: the existing row, or a one-byte
/// blob with an empty presence.
pub open spec fn spec_existing_blob(st: Store, id: RuneId) -> Seq<u8> {
    match st.authority_scripts.spec_get(id) {
        Some(v) => v@,
        None => seq![0u8],
    }
}

/// The presence bits of the blob a merge starts from.
pub open spec fn spec_existing_presence(st: Store, id: RuneId) -> u8 {
    if spec_existing_blob(st, id).len() == 0 {
        0
    } else {
        spec_existing_blob(st, id)[0] & 7
    }
}

/// Whether the transaction holds every one of the listed roles.
fn all_kinds_authorized(
    cache: &mut AuthorityContextCache,
    sc: &mut ScriptCache,
    store: &Store,
    node: &NodeView,
    tx: &Tx,
    id: RuneId,
    kinds: &Vec<AuthorityKind>,
) -> (r: bool)
    requires
        store.wf(),
        old(cache).wf(),
        cache_ok(*old(cache), *store),
        old(sc).wf(),
        old(sc).coherent(*node),
    ensures
        final(cache).wf(),
        final(cache).max_bytes == old(cache).max_bytes,
        cache_ok(*final(cache), *store),
        final(sc).wf(),
        final(sc).max_bytes == old(sc).max_bytes,
        final(sc).coherent(*node),
        r == (forall|j: int|
            0 <= j < kinds@.len() ==> spec_check_authority(
                *store,
                *node,
                *tx,
                id,
                #[trigger] kinds@[j],
            )),
{
    let n = kinds.len();
    let mut j: usize = 0;
    while j < n
        invariant
            j <= n,
            n == kinds@.len(),
            store.wf(),
            cache.wf(),
            cache.max_bytes == old(cache).max_bytes,
            cache_ok(*cache, *store),
            sc.wf(),
            sc.max_bytes == old(sc).max_bytes,
            sc.coherent(*node),
            forall|j2: int|
                0 <= j2 < j ==> spec_check_authority(*store, *node, *tx, id, #[trigger] kinds@[j2]),
        decreases n - j,
    {
        let ok = check_authority(cache, sc, store, node, tx, id, kinds[j]);
        if !ok {
            return false;
        }
        j = j + 1;
    }
    true
}

/// Applies a SetAuthority to its target rune: when every requested role
/// (after the flag filter) is authorized, the new compact script is merged
/// into the scripts blob under each requested role, the flags row gains the
/// requested bits, and the cached context is invalidated. An unauthorized
/// or empty request changes nothing; a compact body over 255 bytes aborts.
pub fn process_set_authority(
    cache: &mut AuthorityContextCache,
    sc: &mut ScriptCache,
    store: &mut Store,
    node: &NodeView,
    tx: &Tx,
    set_authority: &SetAuthority,
    id: RuneId,
) -> (r: Result<(), UpdateError>)
    requires
        old(store).wf(),
        old(cache).wf(),
        cache_ok(*old(cache), *old(store)),
        old(sc).wf(),
        old(sc).coherent(*node),
    ensures
        final(store).wf(),
        final(cache).wf(),
        final(cache).max_bytes == old(cache).max_bytes,
        cache_ok(*final(cache), *final(store)),
        final(sc).wf(),
        final(sc).max_bytes == old(sc).max_bytes,
        final(sc).coherent(*node),
        final(store).outpoint_balances == old(store).outpoint_balances,
        final(store).minters == old(store).minters,
        final(store).blacklist == old(store).blacklist,
        final(store).supply_extra == old(store).supply_extra,
        final(store).entries == old(store).entries,
        final(store).rune_to_id == old(store).rune_to_id,
        final(store).runes == old(store).runes,
        final(store).reserved_runes == old(store).reserved_runes,
        forall|k: RuneId|
            k != id ==> final(store).authority_flags.spec_get(k) == old(
                store,
            ).authority_flags.spec_get(k),
        forall|k: RuneId|
            k != id ==> final(store).authority_scripts.spec_get(k) == old(
                store,
            ).authority_scripts.spec_get(k),
        ({
            let fa = spec_filtered_authorities(
                *old(store),
                id,
                set_authority.authorities.spec_bits(),
            );
            let authorized = spec_all_authorized(*old(store), *node, *tx, id, fa);
            &&& (fa == 0 || !authorized) ==> r == Ok::<(), UpdateError>(()) && *final(store)
                == *old(store)
            &&& (r is Err) <==> (fa != 0 && authorized
                && set_authority.script_pubkey_compact@.len() > 255)
            &&& (r is Err) ==> r == Err::<(), UpdateError>(UpdateError::OversizedValue)
                && *final(store) == *old(store)
            &&& (fa != 0 && authorized && set_authority.script_pubkey_compact@.len() <= 255) ==> {
                &&& final(store).authority_flags.spec_get(id) == Some(
                    (crate::authority::spec_stored_flag_bits(*old(store), id) | fa) as u8,
                )
                &&& (match final(store).authority_scripts.spec_get(id) {
                    Some(b) => b@ == spec_merge(
                        fa,
                        spec_existing_blob(*old(store), id),
                        spec_existing_presence(*old(store), id),
                        (spec_existing_presence(*old(store), id) | fa) as u8,
                        spec_master_kind(*old(store), id).spec_byte(),
                        set_authority.script_pubkey_compact@.len() as u8,
                        set_authority.script_pubkey_compact@,
                    ),
                    None => false,
                })
                &&& final(cache).spec_cget(id) is None
            }
        }),
{
    let ghost ab = set_authority.authorities.spec_bits();
    let mut authorities = set_authority.authorities;
    let has_bl = has_flag(cache, store, id, AuthorityKind::Blacklist);
    if authorities.contains(AuthorityKind::Blacklist) && !has_bl {
        authorities = AuthorityBits::from_bits_truncated(authorities.bits() & 5);
    } else {
        authorities = AuthorityBits::from_bits_truncated(authorities.bits());
    }
    proof {
        let x = set_authority.authorities.0;
        assert(((x & 7) & 2 != 0) == (x & 2 != 0)) by (bit_vector);
        assert(((x & 7) & 5) & 7 == (x & 7) & 5) by (bit_vector);
        assert((x & 7) & 7 == x & 7) by (bit_vector);
        assert(authorities.0 == spec_filtered_authorities(*store, id, ab));
    }
    let ghost fa = authorities.0;
    proof {
        let x = set_authority.authorities.0;
        assert(fa & 7 == fa) by (bit_vector)
            requires
                fa == (x & 7) & 5 || fa == x & 7,
        ;
    }
    if authorities.is_empty() {
        return Ok(());
    }
    proof {
        assert(fa != 0);
    }
    let kinds = authorities.kinds();
    let authorized = all_kinds_authorized(cache, sc, store, node, tx, id, &kinds);
    proof {
        assert(kinds@ == AuthorityBits(fa).spec_kinds());
        assert(authorized == spec_all_authorized(*store, *node, *tx, id, fa));
    }
    if !authorized {
        return Ok(());
    }
    let master = get_authority_script(cache, store, id, AuthorityKind::Master);
    let default_kind = match master {
        Some(script) => script.kind,
        None => CompactScriptKind::P2TR,
    };
    proof {
        assert(default_kind == spec_master_kind(*store, id));
    }
    if set_authority.script_pubkey_compact.len() > 255 {
        return Err(UpdateError::OversizedValue);
    }
    let compact = CompactScript {
        kind: default_kind,
        body: clone_bytes(&set_authority.script_pubkey_compact),
    };
    let compact_body_len = compact.body.len() as u8;

    let stored_raw: u8 = match store.authority_flags.get(id) {
        Some(b) => *b,
        None => 0,
    };
    let stored_bits = stored_raw & 7;
    proof {
        let x = stored_raw;
        assert((x & 7) & 7 == x & 7) by (bit_vector);
        assert(0u8 & 7 == 0) by (bit_vector);
        assert(stored_bits == crate::authority::spec_stored_flag_bits(*store, id));
    }
    let flags = AuthorityBits(stored_bits | authorities.bits());

    let existing_blob: Vec<u8> = match store.authority_scripts.get(id) {
        Some(b) => clone_bytes(b),
        None => {
            let mut v: Vec<u8> = Vec::new();
            v.push(0);
            proof {
                assert(v@ =~= seq![0u8]);
            }
            v
        },
    };
    proof {
        assert(existing_blob@ == spec_existing_blob(*store, id));
    }
    let first_byte: u8 = if existing_blob.len() > 0 {
        existing_blob[0]
    } else {
        0
    };
    let existing_presence = AuthorityBits::from_bits_truncated(first_byte);
    proof {
        assert(0u8 & 7 == 0) by (bit_vector);
        if existing_blob@.len() == 0 {
            assert(spec_existing_presence(*store, id) == 0);
        } else {
            assert(first_byte == spec_existing_blob(*store, id)[0]);
        }
        assert(existing_presence.0 == spec_existing_presence(*store, id));
    }
    let presence = AuthorityBits(existing_presence.bits() | authorities.bits());
    proof {
        let ep = existing_presence.0;
        assert(ep & 7 == ep && fa & 7 == fa ==> ((ep & 7) | (fa & 7)) & 7 == ep | fa && (ep | fa)
            & 7 == ep | fa) by (bit_vector);
        assert(ep & 7 == ep) by (bit_vector)
            requires
                exists|x: u8| ep == x & 7,
        ;
    }

    let scripts_blob = merge_authority_scripts(
        authorities,
        &existing_blob,
        existing_presence,
        presence,
        &compact,
        compact_body_len,
    );
    let ghost blob_view = scripts_blob@;

    let ghost st0 = *store;
    let flag_value = flags.bits();
    proof {
        assert(flag_value == stored_bits | fa) by (bit_vector)
            requires
                flag_value == (stored_bits | fa) & 7 && stored_bits & 7 == stored_bits && fa & 7
                    == fa,
        ;
    }
    store.authority_flags.insert(id, flag_value);
    store.authority_scripts.insert(id, scripts_blob);
    cache.invalidate(id);
    proof {
        lemma_cache_ok_after_id_write(*cache, st0, *store, id);
        assert(presence.spec_bits() == (spec_existing_presence(st0, id) | fa) as u8);
    }
    Ok(())
}


/// Roster entries after applying a list of additions: empty entries are
/// skipped, present values are not duplicated.
pub open spec fn spec_apply_adds(ms: Seq<Seq<u8>>, entries: Seq<Vec<u8>>) -> Seq<Seq<u8>>
    decreases entries.len(),
{
    if entries.len() == 0 {
        ms
    } else {
        let acc = spec_apply_adds(ms, entries.drop_last());
        let e = entries.last()@;
        if e.len() == 0 || acc.contains(e) {
            acc
        } else {
            acc.push(e)
        }
    }
}

/// Roster entries after applying a list of removals: empty entries are
/// skipped, each other entry removes its first stored occurrence.
pub open spec fn spec_apply_removes(ms: Seq<Seq<u8>>, entries: Seq<Vec<u8>>) -> Seq<Seq<u8>>
    decreases entries.len(),
{
    if entries.len() == 0 {
        ms
    } else {
        let acc = spec_apply_removes(ms, entries.drop_last());
        let e = entries.last()@;
        if e.len() == 0 {
            acc
        } else {
            acc.remove_value(e)
        }
    }
}

/// The blacklist entries a batch accepts, judged against the state before
/// the batch: an entry is taken when it is non-empty, not already taken,
/// decodes, and its script is not yet blacklisted.
pub open spec fn spec_blacklist_adds(st: Store, id: RuneId, entries: Seq<Vec<u8>>) -> Seq<Seq<u8>>
    decreases entries.len(),
{
    if entries.len() == 0 {
        Seq::empty()
    } else {
        let acc = spec_blacklist_adds(st, id, entries.drop_last());
        let e = entries.last()@;
        if e.len() == 0 || acc.contains(e) || spec_decode_entry(e) is None
            || spec_is_blacklisted(
            st,
            id,
            crate::compact_script::spec_to_script(
                spec_decode_entry(e).unwrap().0,
                spec_decode_entry(e).unwrap().1,
            ).unwrap(),
        ) {
            acc
        } else {
            acc.push(e)
        }
    }
}

/// A stored entry that decodes is blacklisted: its pair is in the decoded
/// list, so the reconstructed script matches itself.
pub proof fn lemma_stored_entry_blacklisted(ss: Seq<Seq<u8>>, j: int, st: Store, id: RuneId)
    requires
        st.blacklist.spec_multi(id) == ss,
        0 <= j < ss.len(),
        spec_decode_entry(ss[j]) is Some,
    ensures
        spec_is_blacklisted(
            st,
            id,
            crate::compact_script::spec_to_script(
                spec_decode_entry(ss[j]).unwrap().0,
                spec_decode_entry(ss[j]).unwrap().1,
            ).unwrap(),
        ),
{
    let p = spec_decode_entry(ss[j]).unwrap();
    lemma_decode_entry_in_list(ss, j);
    let k = choose|k: int|
        0 <= k < crate::authority::spec_decode_list(ss).len()
            && #[trigger] crate::authority::spec_decode_list(ss)[k] == p;
    crate::authority::lemma_decode_list_bodies(ss);
    assert(1 <= p.1.len() <= 32);
    assert(crate::compact_script::spec_to_script(p.0, p.1) is Some);
    assert(spec_ctx_blacklist(st, id)[k] == p);
}

/// A decodable entry of a list contributes its pair to the decoded list.
pub proof fn lemma_decode_entry_in_list(ss: Seq<Seq<u8>>, j: int)
    requires
        0 <= j < ss.len(),
        spec_decode_entry(ss[j]) is Some,
    ensures
        exists|k: int|
            0 <= k < crate::authority::spec_decode_list(ss).len()
                && #[trigger] crate::authority::spec_decode_list(ss)[k] == spec_decode_entry(
                ss[j],
            ).unwrap(),
    decreases ss.len(),
{
    let l = crate::authority::spec_decode_list(ss);
    if j == 0 {
        assert(l[0] == spec_decode_entry(ss[0]).unwrap());
    } else {
        lemma_decode_entry_in_list(ss.drop_first(), j - 1);
        let tail = crate::authority::spec_decode_list(ss.drop_first());
        let k0 = choose|k: int|
            0 <= k < tail.len() && #[trigger] tail[k] == spec_decode_entry(
                ss.drop_first()[j - 1],
            ).unwrap();
        let head_len = l.len() - tail.len();
        assert(ss.drop_first()[j - 1] == ss[j]);
        assert(l[head_len + k0] == tail[k0]);
    }
}


/// Authority checks read only the rune's scripts blob and blacklist rows:
/// stores equal there judge a transaction alike.
pub proof fn lemma_check_authority_stable(
    st1: Store,
    st2: Store,
    node: NodeView,
    tx: Tx,
    id: RuneId,
    kind: AuthorityKind,
)
    requires
        st2.authority_scripts.spec_get(id) == st1.authority_scripts.spec_get(id),
        st2.blacklist.spec_get(id) == st1.blacklist.spec_get(id),
    ensures
        spec_check_authority(st2, node, tx, id, kind) == spec_check_authority(st1, node, tx, id, kind),
        forall|s: Seq<u8>| spec_is_blacklisted(st2, id, s) == spec_is_blacklisted(st1, id, s),
{
    assert(crate::authority::spec_blob_of(st2, id) == crate::authority::spec_blob_of(st1, id));
    assert(st2.blacklist.spec_multi(id) == st1.blacklist.spec_multi(id));
    assert(spec_ctx_blacklist(st2, id) == spec_ctx_blacklist(st1, id));
}

/// The minter check reads only the rune's scripts blob, minter rows and
/// blacklist rows.
pub proof fn lemma_check_is_minter_stable(
    st1: Store,
    st2: Store,
    node: NodeView,
    tx: Tx,
    id: RuneId,
)
    requires
        st2.authority_scripts.spec_get(id) == st1.authority_scripts.spec_get(id),
        st2.blacklist.spec_get(id) == st1.blacklist.spec_get(id),
        st2.minters.spec_get(id) == st1.minters.spec_get(id),
    ensures
        spec_check_is_minter(st2, node, tx, id) == spec_check_is_minter(st1, node, tx, id),
{
    lemma_check_authority_stable(st1, st2, node, tx, id, AuthorityKind::Master);
    assert(st2.minters.spec_multi(id) == st1.minters.spec_multi(id));
    assert(crate::authority::spec_ctx_minters(st2, id) == crate::authority::spec_ctx_minters(
        st1,
        id,
    ));
    assert forall|m: int|
        #![trigger crate::authority::spec_minter_script(st2, id, m)]
        crate::authority::spec_minter_script(st2, id, m) == crate::authority::spec_minter_script(
            st1,
            id,
            m,
        ) by {}
    if spec_check_is_minter(st1, node, tx, id) && !spec_check_authority(
        st1,
        node,
        tx,
        id,
        AuthorityKind::Master,
    ) {
        let (i, m): (int, int) = choose|i: int, m: int|
            #![trigger crate::authority::spec_input_script(node, tx, i), crate::authority::spec_minter_script(st1, id, m)]
            0 <= i < crate::authority::spec_input_cap(tx) && 0 <= m
                < crate::authority::spec_ctx_minters(st1, id).len()
                && crate::authority::spec_input_script(node, tx, i)
                == crate::authority::spec_minter_script(st1, id, m)
                && crate::authority::spec_minter_script(st1, id, m) is Some
                && !crate::authority::spec_is_blacklisted(
                st1,
                id,
                crate::authority::spec_minter_script(st1, id, m).unwrap(),
            );
        assert(crate::authority::spec_minter_script(st2, id, m)
            == crate::authority::spec_minter_script(st1, id, m));
        assert(spec_check_is_minter(st2, node, tx, id));
    }
    if spec_check_is_minter(st2, node, tx, id) && !spec_check_authority(
        st2,
        node,
        tx,
        id,
        AuthorityKind::Master,
    ) {
        let (i, m): (int, int) = choose|i: int, m: int|
            #![trigger crate::authority::spec_input_script(node, tx, i), crate::authority::spec_minter_script(st2, id, m)]
            0 <= i < crate::authority::spec_input_cap(tx) && 0 <= m
                < crate::authority::spec_ctx_minters(st2, id).len()
                && crate::authority::spec_input_script(node, tx, i)
                == crate::authority::spec_minter_script(st2, id, m)
                && crate::authority::spec_minter_script(st2, id, m) is Some
                && !crate::authority::spec_is_blacklisted(
                st2,
                id,
                crate::authority::spec_minter_script(st2, id, m).unwrap(),
            );
        assert(crate::authority::spec_minter_script(st1, id, m)
            == crate::authority::spec_minter_script(st2, id, m));
        assert(spec_check_is_minter(st1, node, tx, id));
    }
}

/// The effective flags read only the flags row and the scripts blob.
pub proof fn lemma_has_flag_stable(st1: Store, st2: Store, id: RuneId, kind: AuthorityKind)
    requires
        st2.authority_flags.spec_get(id) == st1.authority_flags.spec_get(id),
        st2.authority_scripts.spec_get(id) == st1.authority_scripts.spec_get(id),
    ensures
        spec_has_flag(st2, id, kind) == spec_has_flag(st1, id, kind),
{
    assert(crate::authority::spec_blob_of(st2, id) == crate::authority::spec_blob_of(st1, id));
    assert(crate::authority::spec_stored_flag_bits(st2, id)
        == crate::authority::spec_stored_flag_bits(st1, id));
}

/// Applies minter and blacklist roster updates to their target rune. The
/// minter batch applies iff the master authority is spent; the blacklist
/// batch iff the rune allows blacklisting and the blacklist authority is
/// spent. Unauthorized batches change nothing, silently.
#[verifier::rlimit(60)]
pub fn process_authority_updates(
    cache: &mut AuthorityContextCache,
    sc: &mut ScriptCache,
    store: &mut Store,
    node: &NodeView,
    tx: &Tx,
    updates: &crate::runestone::AuthorityUpdates,
    id: RuneId,
)
    requires
        old(store).wf(),
        old(cache).wf(),
        cache_ok(*old(cache), *old(store)),
        old(sc).wf(),
        old(sc).coherent(*node),
    ensures
        final(store).wf(),
        final(cache).wf(),
        final(cache).max_bytes == old(cache).max_bytes,
        cache_ok(*final(cache), *final(store)),
        final(sc).wf(),
        final(sc).max_bytes == old(sc).max_bytes,
        final(sc).coherent(*node),
        final(store).outpoint_balances == old(store).outpoint_balances,
        final(store).authority_flags == old(store).authority_flags,
        final(store).authority_scripts == old(store).authority_scripts,
        final(store).supply_extra == old(store).supply_extra,
        final(store).entries == old(store).entries,
        final(store).rune_to_id == old(store).rune_to_id,
        final(store).runes == old(store).runes,
        final(store).reserved_runes == old(store).reserved_runes,
        forall|k: RuneId|
            k != id ==> final(store).minters.spec_get(k) == old(store).minters.spec_get(k),
        forall|k: RuneId|
            k != id ==> final(store).blacklist.spec_get(k) == old(store).blacklist.spec_get(k),
        ({
            let master_ok = (updates.add_minter is Some || updates.remove_minter is Some)
                && spec_check_authority(*old(store), *node, *tx, id, AuthorityKind::Master);
            let addl = match updates.add_minter {
                Some(l) => l@,
                None => Seq::empty(),
            };
            let reml = match updates.remove_minter {
                Some(l) => l@,
                None => Seq::empty(),
            };
            &&& !master_ok ==> final(store).minters == old(store).minters
            &&& master_ok ==> final(store).minters.spec_multi(id) == spec_apply_removes(
                spec_apply_adds(old(store).minters.spec_multi(id), addl),
                reml,
            )
        }),
        ({
            let bl_ok = (updates.blacklist is Some || updates.unblacklist is Some)
                && spec_has_flag(*old(store), id, AuthorityKind::Blacklist)
                && spec_check_authority(*old(store), *node, *tx, id, AuthorityKind::Blacklist);
            let bll = match updates.blacklist {
                Some(l) => l@,
                None => Seq::empty(),
            };
            let ubl = match updates.unblacklist {
                Some(l) => l@,
                None => Seq::empty(),
            };
            &&& !bl_ok ==> final(store).blacklist == old(store).blacklist
            &&& bl_ok ==> final(store).blacklist.spec_multi(id) == spec_apply_removes(
                old(store).blacklist.spec_multi(id) + spec_blacklist_adds(*old(store), id, bll),
                ubl,
            )
        }),
{
    let ghost st0 = *store;
    let master_updates_present = updates.add_minter.is_some() || updates.remove_minter.is_some();
    let mut minters_changed = false;
    if master_updates_present {
        let master_auth = check_authority(cache, sc, store, node, tx, id, AuthorityKind::Master);
        if master_auth {
            if let Some(add_list) = &updates.add_minter {
                let ghost ms0 = store.minters.spec_multi(id);
                let n = add_list.len();
                let mut j: usize = 0;
                while j < n
                    invariant
                        j <= n,
                        n == add_list@.len(),
                        store.wf(),
                        store.minters.wf(),
                        *store == (Store { minters: store.minters, ..st0 }),
                        ms0 == st0.minters.spec_multi(id),
                        store.minters.spec_multi(id) == spec_apply_adds(
                            ms0,
                            add_list@.take(j as int),
                        ),
                        forall|k: RuneId|
                            k != id ==> store.minters.spec_get(k) == st0.minters.spec_get(k),
                    decreases n - j,
                {
                    proof {
                        assert(add_list@.take(j + 1) =~= add_list@.take(j as int).push(
                            add_list@[j as int],
                        ));
                        assert(add_list@.take(j + 1).drop_last() =~= add_list@.take(j as int));
                    }
                    let entry = &add_list[j];
                    if entry.len() > 0 {
                        store.minters.multi_insert(id, clone_bytes(entry));
                    }
                    j = j + 1;
                }
                proof {
                    assert(add_list@.take(n as int) =~= add_list@);
                }
                minters_changed = true;
            }
            if let Some(rem_list) = &updates.remove_minter {
                let ghost ms1 = store.minters.spec_multi(id);
                let n = rem_list.len();
                let mut j: usize = 0;
                while j < n
                    invariant
                        j <= n,
                        n == rem_list@.len(),
                        store.wf(),
                        store.minters.wf(),
                        *store == (Store { minters: store.minters, ..st0 }),
                        ms1 == spec_apply_adds(
                            st0.minters.spec_multi(id),
                            match updates.add_minter {
                                Some(l) => l@,
                                None => Seq::empty(),
                            },
                        ),
                        store.minters.spec_multi(id) == spec_apply_removes(
                            ms1,
                            rem_list@.take(j as int),
                        ),
                        forall|k: RuneId|
                            k != id ==> store.minters.spec_get(k) == st0.minters.spec_get(k),
                    decreases n - j,
                {
                    proof {
                        assert(rem_list@.take(j + 1) =~= rem_list@.take(j as int).push(
                            rem_list@[j as int],
                        ));
                        assert(rem_list@.take(j + 1).drop_last() =~= rem_list@.take(j as int));
                    }
                    let entry = &rem_list[j];
                    if entry.len() > 0 {
                        store.minters.multi_remove(id, entry);
                    }
                    j = j + 1;
                }
                proof {
                    assert(rem_list@.take(n as int) =~= rem_list@);
                }
                minters_changed = true;
            }
            proof {
                if updates.add_minter is None {
                    assert(spec_apply_adds(st0.minters.spec_multi(id), Seq::empty())
                        == st0.minters.spec_multi(id));
                }
                if updates.remove_minter is None {
                    assert(spec_apply_removes(
                        spec_apply_adds(
                            st0.minters.spec_multi(id),
                            match updates.add_minter {
                                Some(l) => l@,
                                None => Seq::empty(),
                            },
                        ),
                        Seq::empty(),
                    ) == spec_apply_adds(
                        st0.minters.spec_multi(id),
                        match updates.add_minter {
                            Some(l) => l@,
                            None => Seq::empty(),
                        },
                    ));
                }
            }
        }
    }
    if minters_changed {
        cache.invalidate(id);
        proof {
            lemma_cache_ok_after_id_write(*cache, st0, *store, id);
        }
    }
    let ghost st1 = *store;

    let has_blacklist_requests = updates.blacklist.is_some() || updates.unblacklist.is_some();
    let allow_blacklisting = has_flag(cache, store, id, AuthorityKind::Blacklist);
    proof {
        lemma_has_flag_stable(st0, *store, id, AuthorityKind::Blacklist);
    }
    let blacklist_authorized = if allow_blacklisting && has_blacklist_requests {
        let a = check_authority(cache, sc, store, node, tx, id, AuthorityKind::Blacklist);
        proof {
            lemma_check_authority_stable(st0, *store, *node, *tx, id, AuthorityKind::Blacklist);
        }
        a
    } else {
        false
    };
    let mut blacklist_changed = false;
    if allow_blacklisting && blacklist_authorized {
        if let Some(bl_list) = &updates.blacklist {
            // Decide every entry against the state before the batch, then
            // apply: within-batch duplicates and already-blacklisted scripts
            // are skipped.
            let mut additions: Vec<Vec<u8>> = Vec::new();
            let n = bl_list.len();
            let mut j: usize = 0;
            while j < n
                invariant
                    j <= n,
                    n == bl_list@.len(),
                    store.wf(),
                    *store == st1,
                    st1.blacklist == st0.blacklist,
                    st1.authority_scripts == st0.authority_scripts,
                    cache.wf(),
                    cache.max_bytes == old(cache).max_bytes,
                    cache_ok(*cache, *store),
                    sc.wf(),
                    sc.max_bytes == old(sc).max_bytes,
                    sc.coherent(*node),
                    crate::kv::list_view(additions@) == spec_blacklist_adds(
                        st0,
                        id,
                        bl_list@.take(j as int),
                    ),
                decreases n - j,
            {
                proof {
                    assert(bl_list@.take(j + 1) =~= bl_list@.take(j as int).push(
                        bl_list@[j as int],
                    ));
                    assert(bl_list@.take(j + 1).drop_last() =~= bl_list@.take(j as int));
                    assert(bl_list@.take(j + 1).last() == bl_list@[j as int]);
                }
                let entry = &bl_list[j];
                let ghost e_view = bl_list@[j as int]@;
                let ghost acc = crate::kv::list_view(additions@);
                let taken = crate::authority::contains_bytes(&additions, entry);
                proof {
                    assert(taken == acc.contains(e_view)) by {
                        if taken {
                            let m = choose|m: int|
                                0 <= m < additions@.len() && (#[trigger] additions@[m])@ == entry@;
                            assert(acc[m] == e_view);
                        } else if acc.contains(e_view) {
                            let m = choose|m: int|
                                0 <= m < acc.len() && #[trigger] acc[m] == e_view;
                            assert(additions@[m]@ == entry@);
                        }
                    }
                }
                if entry.len() > 0 && !taken {
                    match decode_compact_entry(entry) {
                        Some(compact) => {
                            match compact.to_script() {
                                Some(script) => {
                                    let bl = is_blacklisted(cache, store, id, &script);
                                    proof {
                                        lemma_check_authority_stable(
                                            st0,
                                            *store,
                                            *node,
                                            *tx,
                                            id,
                                            AuthorityKind::Blacklist,
                                        );
                                        assert(bl == spec_is_blacklisted(st0, id, script@));
                                    }
                                    if !bl {
                                        additions.push(clone_bytes(entry));
                                        proof {
                                            assert(crate::kv::list_view(additions@)
                                                =~= spec_blacklist_adds(
                                                st0,
                                                id,
                                                bl_list@.take(j + 1),
                                            ));
                                        }
                                    } else {
                                        proof {
                                            assert(spec_blacklist_adds(
                                                st0,
                                                id,
                                                bl_list@.take(j + 1),
                                            ) == acc);
                                        }
                                    }
                                },
                                None => {
                                    proof {
                                        assert(false);
                                    }
                                },
                            }
                        },
                        None => {
                            proof {
                                assert(spec_blacklist_adds(st0, id, bl_list@.take(j + 1)) == acc);
                            }
                        },
                    }
                } else {
                    proof {
                        assert(spec_blacklist_adds(st0, id, bl_list@.take(j + 1)) == acc);
                    }
                }
                j = j + 1;
            }
            proof {
                assert(bl_list@.take(n as int) =~= bl_list@);
            }
            let ghost bs0 = store.blacklist.spec_multi(id);
            let n2 = additions.len();
            let mut j: usize = 0;
            while j < n2
                invariant
                    j <= n2,
                    n2 == additions@.len(),
                    store.wf(),
                    store.blacklist.wf(),
                    *store == (Store { blacklist: store.blacklist, ..st1 }),
                    bs0 == st1.blacklist.spec_multi(id),
                    st1.blacklist == st0.blacklist,
                    crate::kv::list_view(additions@) == spec_blacklist_adds(
                        st0,
                        id,
                        match updates.blacklist {
                            Some(l) => l@,
                            None => Seq::empty(),
                        },
                    ),
                    store.blacklist.spec_multi(id) == bs0 + crate::kv::list_view(
                        additions@,
                    ).take(j as int),
                    forall|k: RuneId|
                        k != id ==> store.blacklist.spec_get(k) == st1.blacklist.spec_get(k),
                decreases n2 - j,
            {
                proof {
                    let av = crate::kv::list_view(additions@);
                    assert(av[j as int] == additions@[j as int]@);
                    lemma_blacklist_addition_fresh(st0, id, av, j as int);
                    assert(!(store.blacklist.spec_multi(id).contains(av[j as int]))) by {
                        if store.blacklist.spec_multi(id).contains(av[j as int]) {
                            let w = choose|w: int|
                                0 <= w < store.blacklist.spec_multi(id).len() && #[trigger] store
                                    .blacklist.spec_multi(id)[w] == av[j as int];
                            if w < bs0.len() {
                                assert(bs0.contains(av[j as int]));
                                assert(st0.blacklist.spec_multi(id).contains(av[j as int]));
                            } else {
                                assert(av.take(j as int)[w - bs0.len()] == av[j as int]);
                                assert(av.take(j as int).contains(av[j as int]));
                            }
                        }
                    }
                    assert((bs0 + av.take(j as int)).push(av[j as int]) =~= bs0 + av.take(j + 1));
                }
                let e = clone_bytes(&additions[j]);
                store.blacklist.multi_insert(id, e);
                j = j + 1;
            }
            proof {
                assert(additions@.take(n2 as int) =~= additions@);
            }
            blacklist_changed = true;
        }
        if let Some(ub_list) = &updates.unblacklist {
            let ghost bs1 = store.blacklist.spec_multi(id);
            let n = ub_list.len();
            let mut j: usize = 0;
            while j < n
                invariant
                    j <= n,
                    n == ub_list@.len(),
                    store.wf(),
                    store.blacklist.wf(),
                    *store == (Store { blacklist: store.blacklist, ..st1 }),
                    bs1 == st1.blacklist.spec_multi(id) + spec_blacklist_adds(
                        st0,
                        id,
                        match updates.blacklist {
                            Some(l) => l@,
                            None => Seq::empty(),
                        },
                    ),
                    st1.blacklist == st0.blacklist,
                    store.blacklist.spec_multi(id) == spec_apply_removes(
                        bs1,
                        ub_list@.take(j as int),
                    ),
                    forall|k: RuneId|
                        k != id ==> store.blacklist.spec_get(k) == st1.blacklist.spec_get(k),
                decreases n - j,
            {
                proof {
                    assert(ub_list@.take(j + 1) =~= ub_list@.take(j as int).push(
                        ub_list@[j as int],
                    ));
                    assert(ub_list@.take(j + 1).drop_last() =~= ub_list@.take(j as int));
                }
                let entry = &ub_list[j];
                if entry.len() > 0 {
                    store.blacklist.multi_remove(id, entry);
                }
                j = j + 1;
            }
            proof {
                assert(ub_list@.take(n as int) =~= ub_list@);
            }
            blacklist_changed = true;
        }
        proof {
            if updates.blacklist is None {
                assert(st1.blacklist.spec_multi(id) + spec_blacklist_adds(st0, id, Seq::empty())
                    =~= st1.blacklist.spec_multi(id));
            }
            if updates.unblacklist is None {
                assert(spec_apply_removes(
                    store.blacklist.spec_multi(id),
                    Seq::<Vec<u8>>::empty(),
                ) == store.blacklist.spec_multi(id));
            }
        }
    }
    if blacklist_changed {
        cache.invalidate(id);
        proof {
            lemma_cache_ok_after_id_write(*cache, st1, *store, id);
        }
    }
}

/// An accepted blacklist addition was not already stored, and no two
/// accepted additions coincide: a stored decodable entry's script is
/// blacklisted, and additions pass the not-blacklisted and the taken test.
pub proof fn lemma_blacklist_addition_fresh(st0: Store, id: RuneId, adds: Seq<Seq<u8>>, j: int)
    requires
        0 <= j < adds.len(),
        exists|l: Seq<Vec<u8>>| adds == spec_blacklist_adds(st0, id, l),
    ensures
        !st0.blacklist.spec_multi(id).contains(adds[j]),
        !adds.take(j).contains(adds[j]),
        spec_decode_entry(adds[j]) is Some,
{
    let l = choose|l: Seq<Vec<u8>>| adds == spec_blacklist_adds(st0, id, l);
    lemma_blacklist_adds_props(st0, id, l);
    if st0.blacklist.spec_multi(id).contains(adds[j]) {
        let w = choose|w: int|
            0 <= w < st0.blacklist.spec_multi(id).len() && #[trigger] st0.blacklist.spec_multi(
                id,
            )[w] == adds[j];
        lemma_stored_entry_blacklisted(st0.blacklist.spec_multi(id), w, st0, id);
    }
}

/// Every accepted blacklist addition decodes, its script was not
/// blacklisted, and it does not repeat an earlier acceptance.
pub proof fn lemma_blacklist_adds_props(st0: Store, id: RuneId, l: Seq<Vec<u8>>)
    ensures
        forall|j: int|
            0 <= j < spec_blacklist_adds(st0, id, l).len() ==> {
                let e = #[trigger] spec_blacklist_adds(st0, id, l)[j];
                &&& spec_decode_entry(e) is Some
                &&& !spec_is_blacklisted(
                    st0,
                    id,
                    crate::compact_script::spec_to_script(
                        spec_decode_entry(e).unwrap().0,
                        spec_decode_entry(e).unwrap().1,
                    ).unwrap(),
                )
                &&& !spec_blacklist_adds(st0, id, l).take(j).contains(e)
            },
    decreases l.len(),
{
    if l.len() > 0 {
        lemma_blacklist_adds_props(st0, id, l.drop_last());
        let prev = spec_blacklist_adds(st0, id, l.drop_last());
        let cur = spec_blacklist_adds(st0, id, l);
        assert forall|j: int| 0 <= j < cur.len() implies {
            let e = #[trigger] cur[j];
            &&& spec_decode_entry(e) is Some
            &&& !spec_is_blacklisted(
                st0,
                id,
                crate::compact_script::spec_to_script(
                    spec_decode_entry(e).unwrap().0,
                    spec_decode_entry(e).unwrap().1,
                ).unwrap(),
            )
            &&& !cur.take(j).contains(e)
        } by {
            if j < prev.len() {
                assert(cur[j] == prev[j]);
                assert(cur.take(j) =~= prev.take(j));
            } else {
                assert(cur == prev.push(l.last()@));
                assert(cur.take(j) =~= prev);
            }
        }
    }
}


/// Whether the transaction may mint rune `k` beyond its balance: the rune
/// carries the mint flag and the transaction spends the mint authority or a
/// listed minter.
pub open spec fn spec_mint_gate(st: Store, node: NodeView, tx: Tx, k: RuneId) -> bool {
    spec_has_flag(st, k, AuthorityKind::Mint) && (spec_check_authority(
        st,
        node,
        tx,
        k,
        AuthorityKind::Mint,
    ) || spec_check_is_minter(st, node, tx, k))
}

/// The rune an edict names: the zero id retargets to the etched rune.
pub open spec fn spec_edict_rune(e: Edict, etched: Option<RuneId>) -> Option<RuneId> {
    if e.id.is_default() {
        etched
    } else {
        Some(e.id)
    }
}

/// Whether some edict directs rune `k` at output `v` (naming it, or the
/// distribute sentinel).
pub open spec fn spec_edict_targets(
    edicts: Seq<Edict>,
    etched: Option<RuneId>,
    v: int,
    k: RuneId,
    outputs_len: int,
) -> bool {
    exists|e: int|
        0 <= e < edicts.len() && spec_edict_rune(#[trigger] edicts[e], etched) == Some(k) && (
        edicts[e].output as int == v || edicts[e].output as int == outputs_len)
}

/// What the first edict allocates to its named output, judged against the
/// state the executor starts from: the balance, raised to the edict amount
/// under the mint gate, capped by the edict amount unless that is zero.
pub open spec fn spec_edict0_amount(
    st: Store,
    node: NodeView,
    tx: Tx,
    e0: Edict,
    etched: Option<RuneId>,
    un: RuneTable<u128>,
    k0: RuneId,
) -> nat {
    let bal0 = amt(un, k0);
    let bal = if spec_mint_gate(st, node, tx, k0) && e0.amount > bal0 {
        e0.amount as nat
    } else {
        bal0
    };
    if e0.amount == 0 {
        bal
    } else if (e0.amount as nat) < bal {
        e0.amount as nat
    } else {
        bal
    }
}

/// Every per-output allocation table is well formed.
pub open spec fn al_wf(s: Seq<RuneTable<u128>>) -> bool {
    forall|i: int| 0 <= i < s.len() ==> (#[trigger] s[i]).wf()
}

/// One allocation step: moves `amount` of rune `id` from the unallocated
/// balance to output `out`, unless the output's scriptPubKey is blacklisted
/// for the rune, in which case the amount stays with the sender. Fails only
/// when the output's balance would overflow.
fn allocate_step(
    cache: &mut AuthorityContextCache,
    store: &Store,
    un: &mut RuneTable<u128>,
    al: &mut Vec<RuneTable<u128>>,
    tx: &Tx,
    id: RuneId,
    amount: u128,
    out: usize,
) -> (ok: bool)
    requires
        store.wf(),
        old(cache).wf(),
        cache_ok(*old(cache), *store),
        old(un).wf(),
        al_wf(old(al)@),
        old(al)@.len() == tx.outputs@.len(),
        out < old(al)@.len(),
        amount <= amt(*old(un), id),
    ensures
        final(cache).wf(),
        final(cache).max_bytes == old(cache).max_bytes,
        cache_ok(*final(cache), *store),
        final(un).wf(),
        al_wf(final(al)@),
        final(al)@.len() == old(al)@.len(),
        ({
            let blocked = spec_is_blacklisted(*store, id, tx.outputs@[out as int].script_pubkey@);
            &&& (amount == 0 || blocked) ==> (ok && *final(un) == *old(un) && final(al)@ == old(
                al,
            )@)
            &&& (amount != 0 && !blocked && ok) ==> {
                &&& amt(*final(un), id) == amt(*old(un), id) - amount
                &&& forall|k: RuneId| k != id ==> final(un).spec_get(k) == old(un).spec_get(k)
                &&& forall|v: int|
                    0 <= v < final(al)@.len() && v != out ==> final(al)@[v] == old(al)@[v]
                &&& amt(final(al)@[out as int], id) == amt(old(al)@[out as int], id) + amount
                &&& forall|k: RuneId|
                    k != id ==> (final(al)@[out as int]).spec_get(k) == (old(al)@[out as int]).spec_get(k)
                &&& forall|k: RuneId|
                    alloc_sum(final(al)@, k) + amt(*final(un), k) == alloc_sum(old(al)@, k) + amt(
                        *old(un),
                        k,
                    )
            }
            &&& !ok ==> (*final(un) == *old(un) && final(al)@ == old(al)@)
        }),
{
    if amount == 0 {
        return true;
    }
    let blocked = is_blacklisted(cache, store, id, &tx.outputs[out].script_pubkey);
    if blocked {
        return true;
    }
    let mut t = al.remove(out);
    if !add_amount(&mut t, id, amount) {
        proof {
            assert(old(al)@.remove(out as int).insert(out as int, t) =~= old(al)@);
        }
        al.insert(out, t);
        return false;
    }
    proof {
        assert(old(al)@.remove(out as int).insert(out as int, t) =~= old(al)@.update(
            out as int,
            t,
        ));
    }
    al.insert(out, t);
    sub_amount(un, id, amount);
    proof {
        assert forall|k: RuneId|
            alloc_sum(al@, k) + amt(*un, k) == alloc_sum(old(al)@, k) + amt(*old(un), k) by {
            lemma_alloc_sum_update(old(al)@, out as int, al@[out as int], k);
        }
        assert forall|v: int| 0 <= v < al@.len() && v != out implies al@[v] == old(al)@[v] by {}
        assert(al_wf(al@)) by {
            assert forall|v: int| 0 <= v < al@.len() implies (#[trigger] al@[v]).wf() by {
                if v != out {
                    assert(al@[v] == old(al)@[v]);
                }
            }
        }
    }
    true
}

/// Applies one edict against the running balances. The mint top-up is
/// gated by the mint flag and authorization; allocations move
/// min(amount, balance) (all of it when the amount is zero; split across
/// the non-OP_RETURN outputs under the distribute sentinel), and a
/// blacklisted output silently keeps the amount with the sender.
#[verifier::rlimit(100)]
fn apply_edict(
    cache: &mut AuthorityContextCache,
    sc: &mut ScriptCache,
    store: &mut Store,
    node: &NodeView,
    tx: &Tx,
    edict: Edict,
    etched: Option<RuneId>,
    unallocated: &mut RuneTable<u128>,
    allocated: &mut Vec<RuneTable<u128>>,
    st0: Ghost<Store>,
) -> (r: Result<(), UpdateError>)
    requires
        old(store).wf(),
        old(cache).wf(),
        cache_ok(*old(cache), *old(store)),
        old(sc).wf(),
        old(sc).coherent(*node),
        old(unallocated).wf(),
        al_wf(old(allocated)@),
        old(allocated)@.len() == tx.outputs@.len(),
        old(store).authority_flags == st0@.authority_flags,
        old(store).authority_scripts == st0@.authority_scripts,
        old(store).minters == st0@.minters,
        old(store).blacklist == st0@.blacklist,
    ensures
        final(store).wf(),
        final(cache).wf(),
        final(cache).max_bytes == old(cache).max_bytes,
        cache_ok(*final(cache), *final(store)),
        final(sc).wf(),
        final(sc).max_bytes == old(sc).max_bytes,
        final(sc).coherent(*node),
        final(unallocated).wf(),
        al_wf(final(allocated)@),
        final(allocated)@.len() == old(allocated)@.len(),
        final(store).outpoint_balances == old(store).outpoint_balances,
        final(store).authority_flags == old(store).authority_flags,
        final(store).authority_scripts == old(store).authority_scripts,
        final(store).minters == old(store).minters,
        final(store).blacklist == old(store).blacklist,
        final(store).entries == old(store).entries,
        final(store).rune_to_id == old(store).rune_to_id,
        final(store).runes == old(store).runes,
        final(store).reserved_runes == old(store).reserved_runes,
        forall|k: RuneId|
            spec_supply_extra_of(*final(store), k) >= spec_supply_extra_of(*old(store), k),
        forall|k: RuneId|
            spec_supply_extra_of(*final(store), k) != spec_supply_extra_of(*old(store), k)
                ==> spec_mint_gate(st0@, *node, *tx, k) && Some(k) == spec_edict_rune(
                edict,
                etched,
            ),
        forall|v: int, k: RuneId|
            #![trigger amt(final(allocated)@[v], k)]
            0 <= v < final(allocated)@.len() && spec_is_blacklisted(
                st0@,
                k,
                tx.outputs@[v].script_pubkey@,
            ) ==> amt(final(allocated)@[v], k) == amt(old(allocated)@[v], k),
        forall|v: int, k: RuneId|
            #![trigger amt(final(allocated)@[v], k)]
            0 <= v < final(allocated)@.len() ==> amt(final(allocated)@[v], k) >= amt(
                old(allocated)@[v],
                k,
            ),
        forall|v: int, k: RuneId|
            #![trigger amt(final(allocated)@[v], k)]
            0 <= v < final(allocated)@.len() && amt(final(allocated)@[v], k) > amt(
                old(allocated)@[v],
                k,
            ) ==> (spec_edict_rune(edict, etched) == Some(k) && (edict.output as int == v
                || edict.output as int == tx.outputs@.len() as int)),
        r is Ok ==> (match spec_edict_rune(edict, etched) {
            Some(k0) => ((edict.output as int) < tx.outputs@.len() && !spec_is_blacklisted(
                st0@,
                k0,
                tx.outputs@[edict.output as int].script_pubkey@,
            )) ==> amt(final(allocated)@[edict.output as int], k0) >= amt(
                old(allocated)@[edict.output as int],
                k0,
            ) + spec_edict0_amount(st0@, *node, *tx, edict, etched, *old(unallocated), k0),
            None => true,
        }),
        forall|k: RuneId|
            amt(*final(unallocated), k) + alloc_sum(final(allocated)@, k) + spec_supply_extra_of(
                *old(store),
                k,
            ) == amt(*old(unallocated), k) + alloc_sum(old(allocated)@, k) + spec_supply_extra_of(
                *final(store),
                k,
            ),
        r is Err ==> r == Err::<(), UpdateError>(UpdateError::Overflow),
{
    let output = edict.output as usize;
    let outputs_len = tx.outputs.len();
    let id_opt: Option<RuneId> = if edict.id.block == 0 && edict.id.tx == 0 {
        etched
    } else {
        Some(edict.id)
    };
    if output > outputs_len {
        return Ok(());
    }
    let id = match id_opt {
        Some(id) => id,
        None => {
            return Ok(());
        },
    };
    let balance = get_amount(unallocated, id);
    let has_mint = has_flag(cache, store, id, AuthorityKind::Mint);
    proof {
        lemma_has_flag_stable(st0@, *store, id, AuthorityKind::Mint);
    }
    let mut allow_mint = false;
    if has_mint {
        let ca = check_authority(cache, sc, store, node, tx, id, AuthorityKind::Mint);
        let cm = check_is_minter(cache, sc, store, node, tx, id);
        allow_mint = ca || cm;
        proof {
            assert(allow_mint == spec_mint_gate(st0@, *node, *tx, id)) by {
                lemma_check_authority_stable(st0@, *store, *node, *tx, id, AuthorityKind::Mint);
                lemma_check_is_minter_stable(st0@, *store, *node, *tx, id);
            };
        }
    }
    proof {
        if !has_mint {
            assert(!spec_mint_gate(st0@, *node, *tx, id));
        }
    }
    if allow_mint && edict.amount > balance {
        let delta = edict.amount - balance;
        let current_extra = get_supply_extra(cache, store, id);
        let new_extra = match current_extra.checked_add(delta) {
            Some(v) => v,
            None => {
                return Err(UpdateError::Overflow);
            },
        };
        let ghost un_pre = *unallocated;
        let ghost st_pre = *store;
        unallocated.insert(id, edict.amount);
        set_supply_extra(cache, store, id, new_extra);
        proof {
            assert(new_extra != 0);
            assert(spec_supply_extra_of(*store, id) == new_extra);
            assert forall|k: RuneId|
                amt(*unallocated, k) + alloc_sum(allocated@, k) + spec_supply_extra_of(
                    *old(store),
                    k,
                ) == amt(*old(unallocated), k) + alloc_sum(old(allocated)@, k)
                    + spec_supply_extra_of(*store, k) by {
                if k == id {
                    assert(amt(*unallocated, k) == edict.amount);
                    assert(amt(un_pre, k) == balance);
                    assert(spec_supply_extra_of(st_pre, k) == current_extra);
                    assert(spec_supply_extra_of(*store, k) == current_extra + delta);
                } else {
                    assert(unallocated.spec_get(k) == un_pre.spec_get(k));
                    assert(spec_supply_extra_of(*store, k) == spec_supply_extra_of(st_pre, k));
                }
            }
        }
    }
    let balance_now = get_amount(unallocated, id);
    if output == outputs_len {
        let mut destinations: Vec<usize> = Vec::new();
        let mut v: usize = 0;
        while v < outputs_len
            invariant
                v <= outputs_len,
                outputs_len == tx.outputs@.len(),
                forall|d: int|
                    0 <= d < destinations@.len() ==> (#[trigger] destinations@[d])
                        < tx.outputs@.len(),
            decreases outputs_len - v,
        {
            if !crate::tx::is_op_return(&tx.outputs[v].script_pubkey) {
                destinations.push(v);
            }
            v = v + 1;
        }
        if destinations.len() > 0 {
            let dest_count = destinations.len() as u128;
            let (per, rem): (u128, u128) = if edict.amount == 0 {
                (balance_now / dest_count, balance_now % dest_count)
            } else {
                (0, 0)
            };
            let ghost st_m = *store;
            let ghost un_m = *unallocated;
            let ghost al_m = allocated@;
            let dn = destinations.len();
            let mut d: usize = 0;
            while d < dn
                invariant
                    d <= dn,
                    dn == destinations@.len(),
                    outputs_len == tx.outputs@.len(),
                    forall|d2: int|
                        0 <= d2 < destinations@.len() ==> (#[trigger] destinations@[d2])
                            < tx.outputs@.len(),
                    store.wf(),
                    *store == st_m,
                    al_m == old(allocated)@,
                    st_m.outpoint_balances == old(store).outpoint_balances,
                    st_m.authority_flags == old(store).authority_flags,
                    st_m.authority_scripts == old(store).authority_scripts,
                    st_m.minters == old(store).minters,
                    st_m.blacklist == old(store).blacklist,
                    st_m.entries == old(store).entries,
                    st_m.rune_to_id == old(store).rune_to_id,
                    st_m.runes == old(store).runes,
                    st_m.reserved_runes == old(store).reserved_runes,
                    forall|k: RuneId|
                        spec_supply_extra_of(st_m, k) >= spec_supply_extra_of(*old(store), k),
                    forall|k: RuneId|
                        spec_supply_extra_of(st_m, k) != spec_supply_extra_of(*old(store), k)
                            ==> spec_mint_gate(st0@, *node, *tx, k) && Some(k) == spec_edict_rune(
                            edict,
                            etched,
                        ),
                    forall|k: RuneId|
                        amt(un_m, k) + alloc_sum(al_m, k) + spec_supply_extra_of(*old(store), k)
                            == amt(*old(unallocated), k) + alloc_sum(old(allocated)@, k)
                            + spec_supply_extra_of(st_m, k),
                    cache.wf(),
                    cache.max_bytes == old(cache).max_bytes,
                    cache_ok(*cache, *store),
                    sc.wf(),
                    sc.max_bytes == old(sc).max_bytes,
                    sc.coherent(*node),
                    unallocated.wf(),
                    al_wf(allocated@),
                    allocated@.len() == tx.outputs@.len(),
                    allocated@.len() == al_m.len(),
                    st_m.authority_scripts == st0@.authority_scripts,
                    st_m.blacklist == st0@.blacklist,
                    forall|v2: int, k: RuneId|
                        #![trigger amt(allocated@[v2], k)]
                        0 <= v2 < allocated@.len() && spec_is_blacklisted(
                            st0@,
                            k,
                            tx.outputs@[v2].script_pubkey@,
                        ) ==> amt(allocated@[v2], k) == amt(al_m[v2], k),
                    forall|v2: int, k: RuneId|
                        #![trigger amt(allocated@[v2], k)]
                        0 <= v2 < allocated@.len() && amt(allocated@[v2], k) > amt(al_m[v2], k)
                            ==> k == id,
                    forall|k: RuneId|
                        amt(*unallocated, k) + alloc_sum(allocated@, k) == amt(un_m, k)
                            + alloc_sum(al_m, k),
                    edict.output as int == tx.outputs@.len() as int,
                    spec_edict_rune(edict, etched) == Some(id),
                    forall|v2: int, k: RuneId|
                        #![trigger amt(allocated@[v2], k)]
                        0 <= v2 < allocated@.len() ==> amt(allocated@[v2], k) >= amt(
                            al_m[v2],
                            k,
                        ),
                decreases dn - d,
            {
                let dest = destinations[d];
                let share: u128 = if edict.amount == 0 {
                    if (d as u128) < rem {
                        // The extra unit always fits: the shares sum to the
                        // balance being split.
                        per.checked_add(1).unwrap_or(u128::MAX)
                    } else {
                        per
                    }
                } else {
                    edict.amount
                };
                let remaining = get_amount(unallocated, id);
                // The computed share never exceeds the remaining balance;
                // the bound keeps that visible.
                let amt_eff = if share < remaining {
                    share
                } else {
                    remaining
                };
                let ghost al_before = allocated@;
                let ok = allocate_step(cache, store, unallocated, allocated, tx, id, amt_eff, dest);
                if !ok {
                    return Err(UpdateError::Overflow);
                }
                proof {
                    lemma_blacklist_frame_step(
                        st0@,
                        *store,
                        *tx,
                        al_before,
                        allocated@,
                        al_m,
                        id,
                        dest as int,
                    );
                    assert forall|v2: int, k: RuneId|
                        #![trigger amt(allocated@[v2], k)]
                        0 <= v2 < allocated@.len() && amt(allocated@[v2], k) > amt(
                            al_m[v2],
                            k,
                        ) implies k == id by {
                        if !(amt(al_before[v2], k) > amt(al_m[v2], k)) {
                            assert(v2 == dest as int && k == id);
                        }
                    }
                    assert forall|v2: int, k: RuneId|
                        #![trigger amt(allocated@[v2], k)]
                        0 <= v2 < allocated@.len() implies amt(allocated@[v2], k) >= amt(
                        al_m[v2],
                        k,
                    ) by {
                        assert(amt(al_before[v2], k) >= amt(al_m[v2], k));
                        if v2 != dest as int {
                            assert(allocated@[v2] == al_before[v2]);
                        } else if k != id {
                            assert((allocated@[v2]).spec_get(k) == (al_before[v2]).spec_get(k));
                        }
                    }
                }
                d = d + 1;
            }
            proof {
                assert(spec_edict_rune(edict, etched) == Some(id));
                assert(edict.output as int == tx.outputs@.len() as int);
            }
        }
    } else {
        let amt0: u128 = if edict.amount == 0 {
            balance_now
        } else if edict.amount < balance_now {
            edict.amount
        } else {
            balance_now
        };
        let ghost al_before = allocated@;
        let ghost blocked0 = spec_is_blacklisted(st0@, id, tx.outputs@[output as int].script_pubkey@);
        let ok = allocate_step(cache, store, unallocated, allocated, tx, id, amt0, output);
        if !ok {
            return Err(UpdateError::Overflow);
        }
        proof {
            lemma_blacklist_frame_step(
                st0@,
                *store,
                *tx,
                al_before,
                allocated@,
                old(allocated)@,
                id,
                output as int,
            );
            assert(spec_is_blacklisted(*store, id, tx.outputs@[output as int].script_pubkey@)
                == blocked0) by {
                lemma_is_blacklisted_stable(st0@, *store, id);
            };
            if !blocked0 {
                assert(amt0 == spec_edict0_amount(
                    st0@,
                    *node,
                    *tx,
                    edict,
                    etched,
                    *old(unallocated),
                    id,
                ));
                if amt0 != 0 {
                    assert(amt(allocated@[output as int], id) == amt(
                        al_before[output as int],
                        id,
                    ) + amt0);
                }
            }
        }
    }
    Ok(())
}

/// Interprets the edicts in order. A rune with the mint flag whose edict
/// exceeds the unallocated balance is topped up when the transaction holds
/// the mint authority or a listed minter, the shortfall recorded as
/// authority-minted supply. Allocations to blacklisted outputs are
/// silently rejected and stay with the sender.
#[verifier::rlimit(100)]
pub fn process_edicts(
    cache: &mut AuthorityContextCache,
    sc: &mut ScriptCache,
    store: &mut Store,
    node: &NodeView,
    tx: &Tx,
    edicts: &Vec<Edict>,
    etched: Option<RuneId>,
    unallocated: &mut RuneTable<u128>,
    allocated: &mut Vec<RuneTable<u128>>,
) -> (r: Result<(), UpdateError>)
    requires
        old(store).wf(),
        old(cache).wf(),
        cache_ok(*old(cache), *old(store)),
        old(sc).wf(),
        old(sc).coherent(*node),
        old(unallocated).wf(),
        al_wf(old(allocated)@),
        old(allocated)@.len() == tx.outputs@.len(),
    ensures
        final(store).wf(),
        final(cache).wf(),
        final(cache).max_bytes == old(cache).max_bytes,
        cache_ok(*final(cache), *final(store)),
        final(sc).wf(),
        final(sc).max_bytes == old(sc).max_bytes,
        final(sc).coherent(*node),
        final(unallocated).wf(),
        al_wf(final(allocated)@),
        final(allocated)@.len() == old(allocated)@.len(),
        final(store).outpoint_balances == old(store).outpoint_balances,
        final(store).authority_flags == old(store).authority_flags,
        final(store).authority_scripts == old(store).authority_scripts,
        final(store).minters == old(store).minters,
        final(store).blacklist == old(store).blacklist,
        final(store).entries == old(store).entries,
        final(store).rune_to_id == old(store).rune_to_id,
        final(store).runes == old(store).runes,
        final(store).reserved_runes == old(store).reserved_runes,
        forall|k: RuneId|
            spec_supply_extra_of(*final(store), k) >= spec_supply_extra_of(*old(store), k),
        forall|k: RuneId|
            spec_supply_extra_of(*final(store), k) != spec_supply_extra_of(*old(store), k)
                ==> spec_mint_gate(*old(store), *node, *tx, k),
        forall|v: int, k: RuneId|
            #![trigger amt(final(allocated)@[v], k)]
            0 <= v < final(allocated)@.len() && spec_is_blacklisted(
                *old(store),
                k,
                tx.outputs@[v].script_pubkey@,
            ) ==> amt(final(allocated)@[v], k) == amt(old(allocated)@[v], k),
        forall|v: int, k: RuneId|
            #![trigger amt(final(allocated)@[v], k)]
            0 <= v < final(allocated)@.len() && amt(final(allocated)@[v], k) > amt(
                old(allocated)@[v],
                k,
            ) ==> spec_edict_targets(edicts@, etched, v, k, tx.outputs@.len() as int),
        (r is Ok && edicts@.len() > 0) ==> (match spec_edict_rune(edicts@[0], etched) {
            Some(k0) => ((edicts@[0].output as int) < tx.outputs@.len() && !spec_is_blacklisted(
                *old(store),
                k0,
                tx.outputs@[edicts@[0].output as int].script_pubkey@,
            )) ==> amt(final(allocated)@[edicts@[0].output as int], k0) >= amt(
                old(allocated)@[edicts@[0].output as int],
                k0,
            ) + spec_edict0_amount(
                *old(store),
                *node,
                *tx,
                edicts@[0],
                etched,
                *old(unallocated),
                k0,
            ),
            None => true,
        }),
        r is Ok ==> forall|k: RuneId|
            amt(*final(unallocated), k) + alloc_sum(final(allocated)@, k) + spec_supply_extra_of(
                *old(store),
                k,
            ) == amt(*old(unallocated), k) + alloc_sum(old(allocated)@, k) + spec_supply_extra_of(
                *final(store),
                k,
            ),
        r is Err ==> r == Err::<(), UpdateError>(UpdateError::Overflow),
{
    let n = edicts.len();
    let mut e: usize = 0;
    while e < n
        invariant
            e <= n,
            n == edicts@.len(),
            store.wf(),
            store.outpoint_balances == old(store).outpoint_balances,
            store.authority_flags == old(store).authority_flags,
            store.authority_scripts == old(store).authority_scripts,
            store.minters == old(store).minters,
            store.blacklist == old(store).blacklist,
            store.entries == old(store).entries,
            store.rune_to_id == old(store).rune_to_id,
            store.runes == old(store).runes,
            store.reserved_runes == old(store).reserved_runes,
            cache.wf(),
            cache.max_bytes == old(cache).max_bytes,
            cache_ok(*cache, *store),
            sc.wf(),
            sc.max_bytes == old(sc).max_bytes,
            sc.coherent(*node),
            unallocated.wf(),
            al_wf(allocated@),
            allocated@.len() == tx.outputs@.len(),
            allocated@.len() == old(allocated)@.len(),
            forall|k: RuneId|
                spec_supply_extra_of(*store, k) >= spec_supply_extra_of(*old(store), k),
            forall|k: RuneId|
                spec_supply_extra_of(*store, k) != spec_supply_extra_of(*old(store), k)
                    ==> spec_mint_gate(*old(store), *node, *tx, k),
            forall|v: int, k: RuneId|
                #![trigger amt(allocated@[v], k)]
                0 <= v < allocated@.len() && spec_is_blacklisted(
                    *old(store),
                    k,
                    tx.outputs@[v].script_pubkey@,
                ) ==> amt(allocated@[v], k) == amt(old(allocated)@[v], k),
            forall|v: int, k: RuneId|
                #![trigger amt(allocated@[v], k)]
                0 <= v < allocated@.len() && amt(allocated@[v], k) > amt(old(allocated)@[v], k)
                    ==> spec_edict_targets(edicts@, etched, v, k, tx.outputs@.len() as int),
            e == 0 ==> *unallocated == *old(unallocated),
            e == 0 ==> allocated@ == old(allocated)@,
            (e >= 1 && edicts@.len() > 0) ==> (match spec_edict_rune(edicts@[0], etched) {
                Some(k0) => ((edicts@[0].output as int) < tx.outputs@.len()
                    && !spec_is_blacklisted(
                    *old(store),
                    k0,
                    tx.outputs@[edicts@[0].output as int].script_pubkey@,
                )) ==> amt(allocated@[edicts@[0].output as int], k0) >= amt(
                    old(allocated)@[edicts@[0].output as int],
                    k0,
                ) + spec_edict0_amount(
                    *old(store),
                    *node,
                    *tx,
                    edicts@[0],
                    etched,
                    *old(unallocated),
                    k0,
                ),
                None => true,
            }),
            forall|k: RuneId|
                amt(*unallocated, k) + alloc_sum(allocated@, k) + spec_supply_extra_of(
                    *old(store),
                    k,
                ) == amt(*old(unallocated), k) + alloc_sum(old(allocated)@, k)
                    + spec_supply_extra_of(*store, k),
        decreases n - e,
    {
        let ghost al_e = allocated@;
        let ghost un_e = *unallocated;
        let edict = edicts[e];
        let r_e = apply_edict(
            cache,
            sc,
            store,
            node,
            tx,
            edict,
            etched,
            unallocated,
            allocated,
            Ghost(*old(store)),
        );
        if let Err(err) = r_e {
            return Err(err);
        }
        proof {
            assert(edict == edicts@[e as int]);
            assert forall|v: int, k: RuneId|
                #![trigger amt(allocated@[v], k)]
                0 <= v < allocated@.len() && amt(allocated@[v], k) > amt(old(allocated)@[v], k)
                    implies spec_edict_targets(edicts@, etched, v, k, tx.outputs@.len() as int) by {
                if !(amt(al_e[v], k) > amt(old(allocated)@[v], k)) {
                    assert(amt(allocated@[v], k) > amt(al_e[v], k));
                    assert(spec_edict_rune(edicts@[e as int], etched) == Some(k));
                }
            }
            if e == 0 && edicts@.len() > 0 {
                assert(al_e == old(allocated)@ && un_e == *old(unallocated));
            }
            if e >= 1 && edicts@.len() > 0 {
                if spec_edict_rune(edicts@[0], etched) is Some {
                    let k0 = spec_edict_rune(edicts@[0], etched).unwrap();
                    let v0 = edicts@[0].output as int;
                    if 0 <= v0 < allocated@.len() {
                        assert(amt(allocated@[v0], k0) >= amt(al_e[v0], k0));
                    }
                }
            }
        }
        e = e + 1;
    }
    Ok(())
}

/// Blacklist membership reads only the rune's blacklist rows.
pub proof fn lemma_is_blacklisted_stable(st1: Store, st2: Store, id: RuneId)
    requires
        st2.blacklist.spec_get(id) == st1.blacklist.spec_get(id),
    ensures
        forall|s: Seq<u8>| spec_is_blacklisted(st2, id, s) == spec_is_blacklisted(st1, id, s),
{
    assert(st2.blacklist.spec_multi(id) == st1.blacklist.spec_multi(id));
    assert(spec_ctx_blacklist(st2, id) == spec_ctx_blacklist(st1, id));
    assert forall|s: Seq<u8>|
        spec_is_blacklisted(st2, id, s) == spec_is_blacklisted(st1, id, s) by {
        if spec_is_blacklisted(st1, id, s) {
            let w = choose|w: int|
                0 <= w < spec_ctx_blacklist(st1, id).len() && crate::compact_script::spec_to_script(
                    (#[trigger] spec_ctx_blacklist(st1, id)[w]).0,
                    spec_ctx_blacklist(st1, id)[w].1,
                ) == Some(s);
            assert(spec_ctx_blacklist(st2, id)[w] == spec_ctx_blacklist(st1, id)[w]);
        }
        if spec_is_blacklisted(st2, id, s) {
            let w = choose|w: int|
                0 <= w < spec_ctx_blacklist(st2, id).len() && crate::compact_script::spec_to_script(
                    (#[trigger] spec_ctx_blacklist(st2, id)[w]).0,
                    spec_ctx_blacklist(st2, id)[w].1,
                ) == Some(s);
            assert(spec_ctx_blacklist(st1, id)[w] == spec_ctx_blacklist(st2, id)[w]);
        }
    }
}

/// An allocation step cannot move amounts onto a blacklisted output: if the
/// target was blacklisted the step was a no-op there, so the reject
/// invariant carries over.
pub proof fn lemma_blacklist_frame_step(
    st0: Store,
    st: Store,
    tx: Tx,
    before: Seq<RuneTable<u128>>,
    after: Seq<RuneTable<u128>>,
    base: Seq<RuneTable<u128>>,
    id: RuneId,
    out: int,
)
    requires
        st.blacklist == st0.blacklist,
        st.authority_scripts == st0.authority_scripts,
        before.len() == after.len(),
        before.len() == base.len(),
        0 <= out < before.len(),
        out < tx.outputs@.len(),
        forall|v: int| 0 <= v < after.len() && v != out ==> after[v] == before[v],
        spec_is_blacklisted(st, id, tx.outputs@[out].script_pubkey@) ==> after[out] == before[out],
        forall|k: RuneId| k != id ==> after[out].spec_get(k) == before[out].spec_get(k),
        forall|v: int, k: RuneId|
            #![trigger amt(before[v], k)]
            0 <= v < before.len() && spec_is_blacklisted(st0, k, tx.outputs@[v].script_pubkey@)
                ==> amt(before[v], k) == amt(base[v], k),
    ensures
        forall|v: int, k: RuneId|
            #![trigger amt(after[v], k)]
            0 <= v < after.len() && spec_is_blacklisted(st0, k, tx.outputs@[v].script_pubkey@)
                ==> amt(after[v], k) == amt(base[v], k),
{
    lemma_is_blacklisted_stable(st0, st, id);
    assert forall|v: int, k: RuneId|
        #![trigger amt(after[v], k)]
        0 <= v < after.len() && spec_is_blacklisted(st0, k, tx.outputs@[v].script_pubkey@)
            implies amt(after[v], k) == amt(base[v], k) by {
        assert(amt(before[v], k) == amt(base[v], k));
        if v == out {
            if k == id {
                assert(spec_is_blacklisted(st, id, tx.outputs@[out].script_pubkey@));
                assert(after[out] == before[out]);
            } else {
                assert(after[out].spec_get(k) == before[out].spec_get(k));
                assert(amt(after[out], k) == amt(before[out], k));
            }
        } else {
            assert(after[v] == before[v]);
        }
    }
}


/// The rune a SetAuthority applies to: the first edict's id (the zero id
/// retargets to the etched rune), else the mint field, else the etched rune.
pub open spec fn spec_sa_target(r: Runestone, etched: Option<RuneId>) -> Option<RuneId> {
    let from_edict: Option<RuneId> = if r.edicts@.len() > 0 {
        if r.edicts@[0].id.is_default() {
            etched
        } else {
            Some(r.edicts@[0].id)
        }
    } else {
        None
    };
    match from_edict {
        Some(t) => Some(t),
        None => match r.mint {
            Some(m) => Some(m),
            None => etched,
        },
    }
}

/// The rune an AuthorityUpdates applies to: the mint field, else the etched
/// rune.
pub open spec fn spec_upd_target(r: Runestone, etched: Option<RuneId>) -> Option<RuneId> {
    match r.mint {
        Some(m) => Some(m),
        None => etched,
    }
}

/// Drives a decoded runestone: SetAuthority, then roster updates, then
/// edicts, each against its resolved target rune; an operation without a
/// target is silently skipped.
pub fn process_runestone(
    cache: &mut AuthorityContextCache,
    sc: &mut ScriptCache,
    store: &mut Store,
    node: &NodeView,
    tx: &Tx,
    runestone: &Runestone,
    etched: Option<RuneId>,
    unallocated: &mut RuneTable<u128>,
    allocated: &mut Vec<RuneTable<u128>>,
) -> (r: Result<(), UpdateError>)
    requires
        old(store).wf(),
        old(cache).wf(),
        cache_ok(*old(cache), *old(store)),
        old(sc).wf(),
        old(sc).coherent(*node),
        old(unallocated).wf(),
        al_wf(old(allocated)@),
        old(allocated)@.len() == tx.outputs@.len(),
    ensures
        final(store).wf(),
        final(cache).wf(),
        final(cache).max_bytes == old(cache).max_bytes,
        cache_ok(*final(cache), *final(store)),
        final(sc).wf(),
        final(sc).max_bytes == old(sc).max_bytes,
        final(sc).coherent(*node),
        final(unallocated).wf(),
        al_wf(final(allocated)@),
        final(allocated)@.len() == old(allocated)@.len(),
        final(store).outpoint_balances == old(store).outpoint_balances,
        final(store).entries == old(store).entries,
        final(store).rune_to_id == old(store).rune_to_id,
        final(store).runes == old(store).runes,
        final(store).reserved_runes == old(store).reserved_runes,
        (runestone.set_authority is None || spec_sa_target(*runestone, etched) is None) ==> (
        final(store).authority_flags == old(store).authority_flags
            && final(store).authority_scripts == old(store).authority_scripts),
        (runestone.authority is None || spec_upd_target(*runestone, etched) is None) ==> (
        final(store).minters == old(store).minters
            && final(store).blacklist == old(store).blacklist),
        (match runestone.authority {
            Some(u) => u.blacklist is None && u.unblacklist is None,
            None => true,
        }) ==> final(store).blacklist == old(store).blacklist,
        runestone.set_authority matches Some(sa) ==> spec_sa_target(*runestone, etched)
            matches Some(t) ==> ({
            let fa = spec_filtered_authorities(*old(store), t, sa.authorities.spec_bits());
            let authorized = spec_all_authorized(*old(store), *node, *tx, t, fa);
            &&& (fa == 0 || !authorized) ==> (final(store).authority_flags == old(
                store,
            ).authority_flags && final(store).authority_scripts == old(store).authority_scripts)
            &&& (fa != 0 && authorized && sa.script_pubkey_compact@.len() <= 255) ==> {
                &&& final(store).authority_flags.spec_get(t) == Some(
                    (crate::authority::spec_stored_flag_bits(*old(store), t) | fa) as u8,
                )
                &&& (match final(store).authority_scripts.spec_get(t) {
                    Some(b) => b@ == spec_merge(
                        fa,
                        spec_existing_blob(*old(store), t),
                        spec_existing_presence(*old(store), t),
                        (spec_existing_presence(*old(store), t) | fa) as u8,
                        spec_master_kind(*old(store), t).spec_byte(),
                        sa.script_pubkey_compact@.len() as u8,
                        sa.script_pubkey_compact@,
                    ),
                    None => false,
                })
                &&& forall|k: RuneId|
                    k != t ==> final(store).authority_flags.spec_get(k) == old(
                        store,
                    ).authority_flags.spec_get(k)
                &&& forall|k: RuneId|
                    k != t ==> final(store).authority_scripts.spec_get(k) == old(
                        store,
                    ).authority_scripts.spec_get(k)
            }
        }),
        forall|k: RuneId|
            spec_supply_extra_of(*final(store), k) >= spec_supply_extra_of(*old(store), k),
        runestone.authority matches Some(u) ==> spec_upd_target(*runestone, etched)
            matches Some(t) ==> runestone.set_authority is None ==> ({
            let master_ok = (u.add_minter is Some || u.remove_minter is Some)
                && spec_check_authority(*old(store), *node, *tx, t, AuthorityKind::Master);
            let addl = match u.add_minter {
                Some(l) => l@,
                None => Seq::empty(),
            };
            let reml = match u.remove_minter {
                Some(l) => l@,
                None => Seq::empty(),
            };
            let bl_ok = (u.blacklist is Some || u.unblacklist is Some) && spec_has_flag(
                *old(store),
                t,
                AuthorityKind::Blacklist,
            ) && spec_check_authority(*old(store), *node, *tx, t, AuthorityKind::Blacklist);
            let bll = match u.blacklist {
                Some(l) => l@,
                None => Seq::empty(),
            };
            let ubl = match u.unblacklist {
                Some(l) => l@,
                None => Seq::empty(),
            };
            &&& !master_ok ==> final(store).minters == old(store).minters
            &&& master_ok ==> final(store).minters.spec_multi(t) == spec_apply_removes(
                spec_apply_adds(old(store).minters.spec_multi(t), addl),
                reml,
            )
            &&& !bl_ok ==> final(store).blacklist == old(store).blacklist
            &&& bl_ok ==> final(store).blacklist.spec_multi(t) == spec_apply_removes(
                old(store).blacklist.spec_multi(t) + spec_blacklist_adds(*old(store), t, bll),
                ubl,
            )
        }),
        r is Ok ==> forall|k: RuneId|
            amt(*final(unallocated), k) + alloc_sum(final(allocated)@, k) + spec_supply_extra_of(
                *old(store),
                k,
            ) == amt(*old(unallocated), k) + alloc_sum(old(allocated)@, k) + spec_supply_extra_of(
                *final(store),
                k,
            ),
        r is Err ==> (r == Err::<(), UpdateError>(UpdateError::Overflow) || r == Err::<
            (),
            UpdateError,
        >(UpdateError::OversizedValue)),
{
    if let Some(set_authority) = &runestone.set_authority {
        let target: Option<RuneId> = if runestone.edicts.len() > 0 {
            let first = runestone.edicts[0];
            if first.id.block == 0 && first.id.tx == 0 {
                etched
            } else {
                Some(first.id)
            }
        } else {
            None
        };
        let target = match target {
            Some(t) => Some(t),
            None => match runestone.mint {
                Some(m) => Some(m),
                None => etched,
            },
        };
        proof {
            assert(target == spec_sa_target(*runestone, etched));
        }
        if let Some(target_id) = target {
            let r = process_set_authority(cache, sc, store, node, tx, set_authority, target_id);
            if let Err(e) = r {
                return Err(e);
            }
        }
    }
    if let Some(updates) = &runestone.authority {
        let target: Option<RuneId> = match runestone.mint {
            Some(m) => Some(m),
            None => etched,
        };
        proof {
            assert(target == spec_upd_target(*runestone, etched));
        }
        if let Some(target_id) = target {
            process_authority_updates(cache, sc, store, node, tx, updates, target_id);
        }
    }
    process_edicts(cache, sc, store, node, tx, &runestone.edicts, etched, unallocated, allocated)
}


/// Blacklisting an already-blacklisted script is a no-op: a batch whose
/// every entry reconstructs to a script already on the rune's blacklist
/// accepts nothing, so the stored rows do not change and no duplicate
/// appears.
pub proof fn lemma_blacklist_idempotent(st: Store, id: RuneId, entries: Seq<Vec<u8>>)
    requires
        forall|j: int|
            0 <= j < entries.len() ==> (match spec_decode_entry((#[trigger] entries[j])@) {
                Some(p) => spec_is_blacklisted(
                    st,
                    id,
                    crate::compact_script::spec_to_script(p.0, p.1).unwrap(),
                ),
                None => true,
            }),
    ensures
        spec_blacklist_adds(st, id, entries) == Seq::<Seq<u8>>::empty(),
        st.blacklist.spec_multi(id) + spec_blacklist_adds(st, id, entries)
            == st.blacklist.spec_multi(id),
    decreases entries.len(),
{
    if entries.len() > 0 {
        assert forall|j: int|
            0 <= j < entries.drop_last().len() implies (match spec_decode_entry(
            (#[trigger] entries.drop_last()[j])@,
        ) {
            Some(p) => spec_is_blacklisted(
                st,
                id,
                crate::compact_script::spec_to_script(p.0, p.1).unwrap(),
            ),
            None => true,
        }) by {
            assert(entries.drop_last()[j] == entries[j]);
        }
        lemma_blacklist_idempotent(st, id, entries.drop_last());
        assert(entries[entries.len() - 1] == entries.last());
    }
    assert(st.blacklist.spec_multi(id) + Seq::<Seq<u8>>::empty() =~= st.blacklist.spec_multi(id));
}


/// When every role the presence byte marks is being rewritten, the merged
/// bytes do not depend on the existing blob at all: only the walk offset
/// reads it, never the output.
pub proof fn lemma_merge_out_ignores_existing(
    fa: u8,
    e1: Seq<u8>,
    ep1: u8,
    e2: Seq<u8>,
    ep2: u8,
    p: u8,
    ck: u8,
    cl: u8,
    body: Seq<u8>,
    n: int,
)
    requires
        p | fa == fa,
    ensures
        spec_merge_n(fa, e1, ep1, p, ck, cl, body, n).out == spec_merge_n(
            fa,
            e2,
            ep2,
            p,
            ck,
            cl,
            body,
            n,
        ).out,
        spec_merge_n(fa, e1, ep1, p, ck, cl, body, n).out.len() >= 1,
        spec_merge_n(fa, e1, ep1, p, ck, cl, body, n).out[0] == p,
    decreases n,
{
    if n <= 0 {
    } else {
        lemma_merge_out_ignores_existing(fa, e1, ep1, e2, ep2, p, ck, cl, body, n - 1);
        let m = spec_kind_at(n - 1).spec_mask();
        assert(p | fa == fa && p & m != 0 ==> fa & m != 0) by (bit_vector);
        let w1 = spec_merge_n(fa, e1, ep1, p, ck, cl, body, n - 1);
        let w2 = spec_merge_n(fa, e2, ep2, p, ck, cl, body, n - 1);
        assert((w1.out + seq![ck, cl] + body)[0] == w1.out[0]);
    }
}

/// Repeating the exact same SetAuthority yields an identical scripts blob,
/// whenever the request covers every role the blob's presence byte marks
/// (as after a fresh etch, or a transfer of all present roles): the first
/// merge writes presence `fa`, and a second merge against its own output
/// rewrites the same bytes.
pub proof fn lemma_set_authority_repeat_idempotent(
    fa: u8,
    existing: Seq<u8>,
    ep: u8,
    ck: u8,
    cl: u8,
    body: Seq<u8>,
)
    requires
        fa & 7 == fa,
        ep | fa == fa,
    ensures
        ({
            let m = spec_merge(fa, existing, ep, fa, ck, cl, body);
            spec_merge(fa, m, (m[0] & 7) as u8, ((m[0] & 7) | fa) as u8, ck, cl, body) == m
        }),
{
    let m = spec_merge(fa, existing, ep, fa, ck, cl, body);
    assert(fa | fa == fa) by (bit_vector);
    lemma_merge_out_ignores_existing(fa, existing, ep, existing, ep, fa, ck, cl, body, 3);
    assert(m[0] == fa);
    assert(fa & 7 == fa ==> (fa & 7) == fa && ((fa & 7) | fa) == fa) by (bit_vector);
    lemma_merge_out_ignores_existing(fa, m, fa, existing, ep, fa, ck, cl, body, 3);
}

} // verus!
