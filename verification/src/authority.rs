//! Authority state: the decoded per-rune view of the authority tables, and
//! the queries the executor asks of it.
//!
//! Every query is specified against the store alone; the context cache is an
//! invisible accelerator, kept coherent by `cache_ok`.
use vstd::prelude::*;

use crate::RuneId;
use crate::authority_bits::{AuthorityBits, AuthorityKind};
use crate::bloom::ScriptBloom;
use crate::bytes::{bytes_eq, clone_bytes, copy_range};
use crate::compact_script::{spec_to_script, CompactScript, CompactScriptKind};
use crate::context::{lemma_cs_seq_size_bound, AuthorityContext, AuthorityContextCache,
    AuthorityScripts, CachedScript};
use crate::script_cache::{NodeView, ScriptCache};
use crate::store::Store;
use crate::tx::Tx;

verus! {

/// Inputs beyond this position cannot authorize an operation.
pub const AUTHORITY_INPUT_LIMIT: usize = 10;

/// State of the walk over an authority-scripts blob.
pub ghost struct SlotWalk {
    pub offset: int,
    pub stopped: bool,
    pub mint: Option<(CompactScriptKind, Seq<u8>)>,
    pub blacklist: Option<(CompactScriptKind, Seq<u8>)>,
    pub master: Option<(CompactScriptKind, Seq<u8>)>,
}

impl SlotWalk {
    pub open spec fn spec_slot(self, kind: AuthorityKind) -> Option<(CompactScriptKind, Seq<u8>)> {
        match kind {
            AuthorityKind::Mint => self.mint,
            AuthorityKind::Blacklist => self.blacklist,
            AuthorityKind::Master => self.master,
        }
    }

    pub open spec fn with_slot(
        self,
        kind: AuthorityKind,
        v: Option<(CompactScriptKind, Seq<u8>)>,
    ) -> SlotWalk {
        match kind {
            AuthorityKind::Mint => SlotWalk { mint: v, ..self },
            AuthorityKind::Blacklist => SlotWalk { blacklist: v, ..self },
            AuthorityKind::Master => SlotWalk { master: v, ..self },
        }
    }
}

/// The kind decoded at position `i` of the fixed slot order.
pub open spec fn spec_kind_at(i: int) -> AuthorityKind {
    if i == 0 {
        AuthorityKind::Mint
    } else if i == 1 {
        AuthorityKind::Blacklist
    } else {
        AuthorityKind::Master
    }
}

pub fn kind_at(i: usize) -> (r: AuthorityKind)
    requires
        i < 3,
    ensures
        r == spec_kind_at(i as int),
{
    if i == 0 {
        AuthorityKind::Mint
    } else if i == 1 {
        AuthorityKind::Blacklist
    } else {
        AuthorityKind::Master
    }
}

/// One step of the blob walk: consume the slot for `kind` if the presence
/// byte marks it; stop on a malformed boundary; skip an unknown kind byte.
pub open spec fn spec_slot_step(
    blob: Seq<u8>,
    presence: u8,
    w: SlotWalk,
    kind: AuthorityKind,
) -> SlotWalk {
    if w.stopped || presence & kind.spec_mask() == 0 {
        w
    } else if w.offset + 2 > blob.len() {
        SlotWalk { stopped: true, ..w }
    } else {
        let kb = blob[w.offset];
        let bl = blob[w.offset + 1] as int;
        if bl == 0 || bl > 32 || w.offset + 2 + bl > blob.len() {
            SlotWalk { stopped: true, ..w }
        } else {
            match CompactScriptKind::spec_of_byte(kb) {
                None => SlotWalk { offset: w.offset + 2 + bl, ..w },
                Some(k) => SlotWalk {
                    offset: w.offset + 2 + bl,
                    ..w.with_slot(kind, Some((k, blob.subrange(w.offset + 2, w.offset + 2 + bl))))
                },
            }
        }
    }
}

/// The walk state after the first `n` slots of `blob` (which must be
/// nonempty; its first byte is the presence byte).
pub open spec fn spec_walk_n(blob: Seq<u8>, n: int) -> SlotWalk
    decreases n,
{
    if n <= 0 {
        SlotWalk { offset: 1, stopped: false, mint: None, blacklist: None, master: None }
    } else {
        spec_slot_step(blob, blob[0] & 7, spec_walk_n(blob, n - 1), spec_kind_at(n - 1))
    }
}

/// Decoded slots and presence bits of an authority-scripts blob.
pub open spec fn spec_decode_slots(blob: Seq<u8>) -> (SlotWalk, u8) {
    if blob.len() == 0 {
        (SlotWalk { offset: 1, stopped: false, mint: None, blacklist: None, master: None }, 0)
    } else {
        (spec_walk_n(blob, 3), blob[0] & 7)
    }
}

/// The stored blob of a rune, empty when absent.
pub open spec fn spec_blob_of(st: Store, id: RuneId) -> Seq<u8> {
    match st.authority_scripts.spec_get(id) {
        Some(v) => v@,
        None => Seq::empty(),
    }
}

/// The stored flag bits of a rune, truncated to the low three.
pub open spec fn spec_stored_flag_bits(st: Store, id: RuneId) -> u8 {
    match st.authority_flags.spec_get(id) {
        Some(b) => b & 7,
        None => 0,
    }
}

/// The effective flags: the stored row, or the blob's presence bits when the
/// row is empty.
pub open spec fn spec_effective_flags(st: Store, id: RuneId) -> u8 {
    let f = spec_stored_flag_bits(st, id);
    if f == 0 {
        spec_decode_slots(spec_blob_of(st, id)).1
    } else {
        f
    }
}

/// The decoded authority slot of a rune for one role.
pub open spec fn spec_ctx_slot(st: Store, id: RuneId, kind: AuthorityKind) -> Option<
    (CompactScriptKind, Seq<u8>),
> {
    spec_decode_slots(spec_blob_of(st, id)).0.spec_slot(kind)
}

/// A stored `[kind][body]` entry decoded to its (kind, body) pair; `None`
/// for a malformed entry, which reads skip.
pub open spec fn spec_decode_entry(e: Seq<u8>) -> Option<(CompactScriptKind, Seq<u8>)> {
    if e.len() < 2 || e.len() > 33 {
        None
    } else {
        match CompactScriptKind::spec_of_byte(e[0]) {
            None => None,
            Some(k) => Some((k, e.subrange(1, e.len() as int))),
        }
    }
}

/// The valid entries of a stored multimap list, in order.
pub open spec fn spec_decode_list(ss: Seq<Seq<u8>>) -> Seq<(CompactScriptKind, Seq<u8>)>
    decreases ss.len(),
{
    if ss.len() == 0 {
        Seq::empty()
    } else {
        (match spec_decode_entry(ss.first()) {
            Some(p) => seq![p],
            None => Seq::empty(),
        }) + spec_decode_list(ss.drop_first())
    }
}

pub proof fn lemma_decode_list_snoc(ss: Seq<Seq<u8>>, e: Seq<u8>)
    ensures
        spec_decode_list(ss.push(e)) == spec_decode_list(ss) + (match spec_decode_entry(e) {
            Some(p) => seq![p],
            None => Seq::empty(),
        }),
    decreases ss.len(),
{
    if ss.len() == 0 {
        assert(ss.push(e).first() == e);
        assert(ss.push(e).drop_first() =~= Seq::empty());
        assert(spec_decode_list(ss.push(e).drop_first()) =~= Seq::empty());
        assert(spec_decode_list(ss.push(e)) =~= spec_decode_list(ss) + (match spec_decode_entry(e) {
            Some(p) => seq![p],
            None => Seq::empty(),
        }));
    } else {
        assert(ss.push(e).first() == ss.first());
        assert(ss.push(e).drop_first() =~= ss.drop_first().push(e));
        lemma_decode_list_snoc(ss.drop_first(), e);
        assert(spec_decode_list(ss.push(e)) =~= spec_decode_list(ss) + (match spec_decode_entry(e) {
            Some(p) => seq![p],
            None => Seq::empty(),
        }));
    }
}

/// Every decoded entry has a body of 1 to 32 bytes, so it reconstructs.
pub proof fn lemma_decode_list_bodies(ss: Seq<Seq<u8>>)
    ensures
        forall|i: int|
            0 <= i < spec_decode_list(ss).len() ==> 1 <= (#[trigger] spec_decode_list(ss)[i]).1.len()
                <= 32,
    decreases ss.len(),
{
    if ss.len() > 0 {
        lemma_decode_list_bodies(ss.drop_first());
        let l = spec_decode_list(ss);
        let tail = spec_decode_list(ss.drop_first());
        assert forall|i: int| 0 <= i < l.len() implies 1 <= (#[trigger] l[i]).1.len() <= 32 by {
            match spec_decode_entry(ss.first()) {
                Some(p) => {
                    if i == 0 {
                        assert(l[0] == p);
                    } else {
                        assert(l[i] == tail[i - 1]);
                    }
                },
                None => {
                    assert(l[i] == tail[i]);
                },
            }
        }
    }
}

/// The decoded minter list of a rune.
pub open spec fn spec_ctx_minters(st: Store, id: RuneId) -> Seq<(CompactScriptKind, Seq<u8>)> {
    spec_decode_list(st.minters.spec_multi(id))
}

/// The decoded blacklist of a rune.
pub open spec fn spec_ctx_blacklist(st: Store, id: RuneId) -> Seq<(CompactScriptKind, Seq<u8>)> {
    spec_decode_list(st.blacklist.spec_multi(id))
}

/// The recorded authority-minted supply of a rune.
pub open spec fn spec_supply_extra_of(st: Store, id: RuneId) -> u128 {
    match st.supply_extra.spec_get(id) {
        Some(v) => v,
        None => 0,
    }
}

/// The (kind, body) view of an optional cached script.
pub open spec fn slot_view(o: Option<CachedScript>) -> Option<(CompactScriptKind, Seq<u8>)> {
    match o {
        Some(c) => Some(c.view_pair()),
        None => None,
    }
}

/// The context `c` is exactly what loading rune `id` from `st` yields.
pub open spec fn ctx_matches(c: AuthorityContext, st: Store, id: RuneId) -> bool {
    &&& c.wf()
    &&& c.flags.0 == spec_effective_flags(st, id)
    &&& slot_view(c.scripts.mint) == spec_ctx_slot(st, id, AuthorityKind::Mint)
    &&& slot_view(c.scripts.blacklist) == spec_ctx_slot(st, id, AuthorityKind::Blacklist)
    &&& slot_view(c.scripts.master) == spec_ctx_slot(st, id, AuthorityKind::Master)
    &&& c.minters@.map_values(|x: CachedScript| x.view_pair()) == spec_ctx_minters(st, id)
    &&& c.blacklist@.map_values(|x: CachedScript| x.view_pair()) == spec_ctx_blacklist(st, id)
    &&& (c.blacklist_bloom is Some) == (spec_ctx_blacklist(st, id).len() > 0)
    &&& c.supply_extra == spec_supply_extra_of(st, id)
}

/// Every cached context agrees with the store.
pub open spec fn cache_ok(cache: AuthorityContextCache, st: Store) -> bool {
    forall|id: RuneId|
        (#[trigger] cache.spec_cget(id)) is Some ==> ctx_matches(
            cache.spec_cget(id).unwrap(),
            st,
            id,
        )
}

/// Whether `script` is blacklisted for rune `id`: some stored blacklist
/// entry reconstructs to exactly this scriptPubKey.
pub open spec fn spec_is_blacklisted(st: Store, id: RuneId, script: Seq<u8>) -> bool {
    exists|i: int|
        0 <= i < spec_ctx_blacklist(st, id).len() && spec_to_script(
            #[trigger] spec_ctx_blacklist(st, id)[i].0,
            spec_ctx_blacklist(st, id)[i].1,
        ) == Some(script)
}

/// The scriptPubKey expected of an authority of `kind`, if one is set and
/// reconstructable.
pub open spec fn spec_expected_script(st: Store, id: RuneId, kind: AuthorityKind) -> Option<
    Seq<u8>,
> {
    match spec_ctx_slot(st, id, kind) {
        None => None,
        Some((k, b)) => spec_to_script(k, b),
    }
}

/// The prevout scriptPubKey of input `i`, as the node reports it.
pub open spec fn spec_input_script(node: NodeView, tx: Tx, i: int) -> Option<Seq<u8>> {
    node.spec_script((tx.inputs@[i].prevout.txid@, tx.inputs@[i].prevout.vout))
}

/// How many leading inputs may authorize: at most the first ten.
pub open spec fn spec_input_cap(tx: Tx) -> int {
    if tx.inputs@.len() < 10 {
        tx.inputs@.len() as int
    } else {
        10
    }
}

/// Whether the transaction spends the authority script of `kind` for `id`
/// in one of its first ten inputs, not counting blacklisted prevouts.
pub open spec fn spec_check_authority(
    st: Store,
    node: NodeView,
    tx: Tx,
    id: RuneId,
    kind: AuthorityKind,
) -> bool {
    match spec_expected_script(st, id, kind) {
        None => false,
        Some(es) => !spec_is_blacklisted(st, id, es) && exists|i: int|
            0 <= i < spec_input_cap(tx) && spec_input_script(node, tx, i) == Some(es),
    }
}

/// The reconstructed scriptPubKey of minter `m` of rune `id`.
pub open spec fn spec_minter_script(st: Store, id: RuneId, m: int) -> Option<Seq<u8>> {
    spec_to_script(spec_ctx_minters(st, id)[m].0, spec_ctx_minters(st, id)[m].1)
}

/// Whether the transaction is a minter for `id`: it holds the master
/// authority, or spends some listed minter script in its first ten inputs,
/// not counting blacklisted prevouts.
pub open spec fn spec_check_is_minter(st: Store, node: NodeView, tx: Tx, id: RuneId) -> bool {
    spec_check_authority(st, node, tx, id, AuthorityKind::Master) || exists|i: int, m: int|
        #![trigger spec_input_script(node, tx, i), spec_minter_script(st, id, m)]
        0 <= i < spec_input_cap(tx) && 0 <= m < spec_ctx_minters(st, id).len()
            && spec_input_script(node, tx, i) == spec_minter_script(st, id, m)
            && spec_minter_script(st, id, m) is Some && !spec_is_blacklisted(
            st,
            id,
            spec_minter_script(st, id, m).unwrap(),
        )
}

/// Decodes a stored `[kind][body]` entry; `None` when malformed.
pub fn decode_compact_entry(entry: &Vec<u8>) -> (r: Option<CompactScript>)
    ensures
        match r {
            Some(c) => spec_decode_entry(entry@) == Some(c.view_pair()) && 1 <= c.body@.len() <= 32,
            None => spec_decode_entry(entry@) is None,
        },
{
    if entry.len() < 2 || entry.len() > 33 {
        return None;
    }
    let kind = match CompactScriptKind::of_byte(entry[0]) {
        Some(k) => k,
        None => {
            return None;
        },
    };
    let body = copy_range(entry, 1, entry.len());
    Some(CompactScript { kind, body })
}

/// Decodes an authority-scripts blob into its slots and presence bits.
fn decode_authority_scripts(blob: &Vec<u8>) -> (r: (AuthorityScripts, u8))
    ensures
        r.0.wf(),
        slot_view(r.0.mint) == spec_decode_slots(blob@).0.mint,
        slot_view(r.0.blacklist) == spec_decode_slots(blob@).0.blacklist,
        slot_view(r.0.master) == spec_decode_slots(blob@).0.master,
        r.1 == spec_decode_slots(blob@).1,
{
    let mut scripts = AuthorityScripts { mint: None, blacklist: None, master: None };
    if blob.len() == 0 {
        return (scripts, 0);
    }
    let presence = blob[0] & 7;
    let mut offset: usize = 1;
    let mut stopped = false;
    let mut i: usize = 0;
    while i < 3
        invariant
            i <= 3,
            blob@.len() > 0,
            presence == blob@[0] & 7,
            scripts.wf(),
            offset <= blob@.len() || offset == 1,
            ({
                let w = spec_walk_n(blob@, i as int);
                &&& w.offset == offset
                &&& w.stopped == stopped
                &&& slot_view(scripts.mint) == w.mint
                &&& slot_view(scripts.blacklist) == w.blacklist
                &&& slot_view(scripts.master) == w.master
            }),
        decreases 3 - i,
    {
        let kind = kind_at(i);
        let take_it = !stopped && presence & kind.mask() != 0;
        if take_it {
            if (offset as u128) + 2 > (blob.len() as u128) {
                stopped = true;
            } else {
                let kb = blob[offset];
                let bl = blob[offset + 1] as usize;
                if bl == 0 || bl > 32 || (offset as u128) + 2 + (bl as u128) > (blob.len()
                    as u128) {
                    stopped = true;
                } else {
                    match CompactScriptKind::of_byte(kb) {
                        None => {
                            offset = offset + 2 + bl;
                        },
                        Some(k) => {
                            let body = copy_range(blob, offset + 2, offset + 2 + bl);
                            let cached = CachedScript::new(CompactScript { kind: k, body });
                            match kind {
                                AuthorityKind::Mint => {
                                    scripts.mint = Some(cached);
                                },
                                AuthorityKind::Blacklist => {
                                    scripts.blacklist = Some(cached);
                                },
                                AuthorityKind::Master => {
                                    scripts.master = Some(cached);
                                },
                            }
                            offset = offset + 2 + bl;
                        },
                    }
                }
            }
        }
        i = i + 1;
    }
    (scripts, presence)
}

/// Loads the authority context of `id` from the store.
#[verifier::rlimit(100)]
pub fn load_context(store: &Store, id: RuneId) -> (ctx: AuthorityContext)
    requires
        store.wf(),
    ensures
        ctx_matches(ctx, *store, id),
{
    let flags_bits: u8 = match store.authority_flags.get(id) {
        Some(b) => *b & 7,
        None => 0,
    };
    let empty_blob: Vec<u8> = Vec::new();
    let (scripts, presence) = match store.authority_scripts.get(id) {
        Some(blob) => decode_authority_scripts(blob),
        None => decode_authority_scripts(&empty_blob),
    };
    let flags_bits = if flags_bits == 0 {
        presence
    } else {
        flags_bits
    };

    let mut minters: Vec<CachedScript> = Vec::new();
    let empty_list: Vec<Vec<u8>> = Vec::new();
    let minter_entries: &Vec<Vec<u8>> = match store.minters.get(id) {
        Some(l) => l,
        None => &empty_list,
    };
    proof {
        assert(crate::kv::list_view(minter_entries@) =~= store.minters.spec_multi(id));
    }
    let mut i: usize = 0;
    while i < minter_entries.len()
        invariant
            i <= minter_entries@.len(),
            minters@.map_values(|x: CachedScript| x.view_pair()) == spec_decode_list(
                crate::kv::list_view(minter_entries@).take(i as int),
            ),
            forall|j: int| 0 <= j < minters@.len() ==> (#[trigger] minters@[j]).wf(),
        decreases minter_entries@.len() - i,
    {
        proof {
            lemma_decode_list_snoc(
                crate::kv::list_view(minter_entries@).take(i as int),
                minter_entries@[i as int]@,
            );
            assert(crate::kv::list_view(minter_entries@).take(i + 1)
                =~= crate::kv::list_view(minter_entries@).take(i as int).push(
                minter_entries@[i as int]@,
            ));
        }
        match decode_compact_entry(&minter_entries[i]) {
            Some(c) => {
                let cached = CachedScript::new(c);
                minters.push(cached);
                proof {
                    assert(minters@.map_values(|x: CachedScript| x.view_pair())
                        =~= minters@.drop_last().map_values(|x: CachedScript| x.view_pair()).push(
                        minters@.last().view_pair(),
                    ));
                }
            },
            None => {},
        }
        i = i + 1;
    }
    proof {
        assert(crate::kv::list_view(minter_entries@).take(minter_entries@.len() as int)
            =~= crate::kv::list_view(minter_entries@));
    }

    let mut blacklist: Vec<CachedScript> = Vec::new();
    let blacklist_entries: &Vec<Vec<u8>> = match store.blacklist.get(id) {
        Some(l) => l,
        None => &empty_list,
    };
    proof {
        assert(crate::kv::list_view(blacklist_entries@) =~= store.blacklist.spec_multi(id));
    }
    let mut i: usize = 0;
    while i < blacklist_entries.len()
        invariant
            i <= blacklist_entries@.len(),
            blacklist@.map_values(|x: CachedScript| x.view_pair()) == spec_decode_list(
                crate::kv::list_view(blacklist_entries@).take(i as int),
            ),
            forall|j: int| 0 <= j < blacklist@.len() ==> (#[trigger] blacklist@[j]).wf(),
        decreases blacklist_entries@.len() - i,
    {
        proof {
            lemma_decode_list_snoc(
                crate::kv::list_view(blacklist_entries@).take(i as int),
                blacklist_entries@[i as int]@,
            );
            assert(crate::kv::list_view(blacklist_entries@).take(i + 1)
                =~= crate::kv::list_view(blacklist_entries@).take(i as int).push(
                blacklist_entries@[i as int]@,
            ));
        }
        match decode_compact_entry(&blacklist_entries[i]) {
            Some(c) => {
                let cached = CachedScript::new(c);
                blacklist.push(cached);
                proof {
                    assert(blacklist@.map_values(|x: CachedScript| x.view_pair())
                        =~= blacklist@.drop_last().map_values(
                        |x: CachedScript| x.view_pair(),
                    ).push(blacklist@.last().view_pair()));
                }
            },
            None => {},
        }
        i = i + 1;
    }
    proof {
        assert(crate::kv::list_view(blacklist_entries@).take(blacklist_entries@.len() as int)
            =~= crate::kv::list_view(blacklist_entries@));
    }

    let blacklist_bloom: Option<ScriptBloom>;
    if blacklist.len() == 0 {
        blacklist_bloom = None;
    } else {
        let mut bloom = match ScriptBloom::new(blacklist.len()) {
            Some(b) => b,
            None => {
                proof {
                    assert(false);
                }
                vstd::pervasive::unreached()
            },
        };
        let mut i: usize = 0;
        while i < blacklist.len()
            invariant
                i <= blacklist@.len(),
                bloom.wf(),
                forall|j: int| 0 <= j < blacklist@.len() ==> (#[trigger] blacklist@[j]).wf(),
                forall|j: int|
                    0 <= j < i && (#[trigger] blacklist@[j]).spec_script() is Some
                        ==> bloom.spec_might_contain(blacklist@[j].spec_script().unwrap()),
            decreases blacklist@.len() - i,
        {
            match &blacklist[i].script {
                Some(s) => {
                    proof {
                        assert(blacklist@[i as int].wf());
                        assert(blacklist@[i as int].spec_script() == Some(s@));
                    }
                    bloom.insert(s);
                },
                None => {
                    proof {
                        assert(blacklist@[i as int].wf());
                    }
                },
            }
            i = i + 1;
        }
        blacklist_bloom = Some(bloom);
    }

    let supply_extra: u128 = match store.supply_extra.get(id) {
        Some(v) => *v,
        None => 0,
    };

    let minters_count = minters.len();
    let blacklist_count = blacklist.len();
    let ctx = AuthorityContext {
        flags: AuthorityBits(flags_bits),
        scripts,
        minters,
        blacklist,
        blacklist_bloom,
        supply_extra,
    };
    proof {
        assert(ctx.minters@.len() == minters_count);
        assert(ctx.blacklist@.len() == blacklist_count);
        assert(minters_count <= 0xffffffffffffffff);
        assert(blacklist_count <= 0xffffffffffffffff);
    }
    proof {
        lemma_cs_seq_size_bound(ctx.minters@);
        lemma_cs_seq_size_bound(ctx.blacklist@);
        assert(ctx.minters@.map_values(|x: CachedScript| x.view_pair()).len()
            == ctx.minters@.len());
        assert(ctx.blacklist@.map_values(|x: CachedScript| x.view_pair()).len()
            == ctx.blacklist@.len());
        assert(ctx.minters@.len() * 528 <= 0xffffffffffffffff * 528) by (nonlinear_arith)
            requires
                ctx.minters@.len() <= 0xffffffffffffffff,
        ;
        assert(ctx.blacklist@.len() * 528 <= 0xffffffffffffffff * 528) by (nonlinear_arith)
            requires
                ctx.blacklist@.len() <= 0xffffffffffffffff,
        ;
        assert(ctx.spec_size() < 0x100000000000000000000);
    }
    ctx
}


/// Ensures the cache holds the context of `id`, loading it when absent.
pub fn get_context_cached(cache: &mut AuthorityContextCache, store: &Store, id: RuneId)
    requires
        store.wf(),
        old(cache).wf(),
        cache_ok(*old(cache), *store),
    ensures
        final(cache).wf(),
        final(cache).max_bytes == old(cache).max_bytes,
        cache_ok(*final(cache), *store),
        final(cache).spec_cget(id) is Some,
        forall|k: RuneId, c: AuthorityContext|
            final(cache).spec_cget(k) == Some(c) ==> (old(cache).spec_cget(k) == Some(c) || k
                == id),
{
    if cache.contains(id) {
        cache.touch(id);
        proof {
            assert forall|k: RuneId| (#[trigger] cache.spec_cget(k)) is Some implies ctx_matches(
                cache.spec_cget(k).unwrap(),
                *store,
                k,
            ) by {
                assert(cache.spec_cget(k) == old(cache).spec_cget(k));
            }
        }
    } else {
        let ctx = load_context(store, id);
        cache.insert(id, ctx);
        proof {
            assert forall|k: RuneId| (#[trigger] cache.spec_cget(k)) is Some implies ctx_matches(
                cache.spec_cget(k).unwrap(),
                *store,
                k,
            ) by {
                let c = cache.spec_cget(k).unwrap();
                if k != id {
                    assert(old(cache).spec_cget(k) == Some(c));
                }
            }
        }
    }
}

/// Whether `script` is blacklisted for rune `id`: a bloom filter, when one
/// is cached, short-circuits the scan; it never produces a false negative.
pub fn is_blacklisted(
    cache: &mut AuthorityContextCache,
    store: &Store,
    id: RuneId,
    script: &Vec<u8>,
) -> (r: bool)
    requires
        store.wf(),
        old(cache).wf(),
        cache_ok(*old(cache), *store),
    ensures
        final(cache).wf(),
        final(cache).max_bytes == old(cache).max_bytes,
        cache_ok(*final(cache), *store),
        forall|k: RuneId, c: AuthorityContext|
            final(cache).spec_cget(k) == Some(c) ==> (old(cache).spec_cget(k) == Some(c) || k
                == id),
        r == spec_is_blacklisted(*store, id, script@),
{
    get_context_cached(cache, store, id);
    let ctx = cache.peek(id);
    proof {
        assert(ctx_matches(*ctx, *store, id));
    }
    let ghost bl = spec_ctx_blacklist(*store, id);
    proof {
        assert(ctx.blacklist@.map_values(|x: CachedScript| x.view_pair()) == bl);
        assert(ctx.blacklist@.len() == bl.len());
    }
    if let Some(bloom) = &ctx.blacklist_bloom {
        if !bloom.might_contain(script) {
            proof {
                assert(!spec_is_blacklisted(*store, id, script@)) by {
                    if spec_is_blacklisted(*store, id, script@) {
                        let i = choose|i: int|
                            0 <= i < bl.len() && spec_to_script(
                                #[trigger] bl[i].0,
                                bl[i].1,
                            ) == Some(script@);
                        assert(ctx.blacklist@[i].view_pair() == bl[i]);
                        assert(ctx.blacklist@[i].spec_script() == Some(script@));
                        assert(bloom.spec_might_contain(script@));
                    }
                }
            }
            return false;
        }
    }
    let n = ctx.blacklist.len();
    let mut i: usize = 0;
    while i < n
        invariant
            i <= n,
            n == ctx.blacklist@.len(),
            cache.wf(),
            cache.max_bytes == old(cache).max_bytes,
            cache_ok(*cache, *store),
            forall|k: RuneId, c: AuthorityContext|
                cache.spec_cget(k) == Some(c) ==> (old(cache).spec_cget(k) == Some(c) || k == id),
            bl == spec_ctx_blacklist(*store, id),
            forall|j: int| 0 <= j < ctx.blacklist@.len() ==> (#[trigger] ctx.blacklist@[j]).wf(),
            bl == ctx.blacklist@.map_values(|x: CachedScript| x.view_pair()),
            forall|j: int| 0 <= j < i ==> spec_to_script(#[trigger] bl[j].0, bl[j].1) != Some(
                script@,
            ),
        decreases n - i,
    {
        let hit = {
            let entry = &ctx.blacklist[i];
            match &entry.script {
                Some(s) => bytes_eq(s, script),
                None => false,
            }
        };
        proof {
            assert(ctx.blacklist@[i as int].view_pair() == bl[i as int]);
            assert(ctx.blacklist@[i as int].wf());
        }
        if hit {
            proof {
                assert(spec_to_script(bl[i as int].0, bl[i as int].1) == Some(script@));
            }
            return true;
        }
        i = i + 1;
    }
    proof {
        assert(!spec_is_blacklisted(*store, id, script@)) by {
            if spec_is_blacklisted(*store, id, script@) {
                let j = choose|j: int|
                    0 <= j < bl.len() && spec_to_script(#[trigger] bl[j].0, bl[j].1) == Some(
                        script@,
                    );
            }
        }
    }
    false
}

/// The current authority compact script of a rune for one role.
pub fn get_authority_script(
    cache: &mut AuthorityContextCache,
    store: &Store,
    id: RuneId,
    kind: AuthorityKind,
) -> (r: Option<CompactScript>)
    requires
        store.wf(),
        old(cache).wf(),
        cache_ok(*old(cache), *store),
    ensures
        final(cache).wf(),
        final(cache).max_bytes == old(cache).max_bytes,
        cache_ok(*final(cache), *store),
        forall|k: RuneId, c: AuthorityContext|
            final(cache).spec_cget(k) == Some(c) ==> (old(cache).spec_cget(k) == Some(c) || k
                == id),
        match r {
            Some(c) => spec_ctx_slot(*store, id, kind) == Some(c.view_pair()),
            None => spec_ctx_slot(*store, id, kind) is None,
        },
{
    get_context_cached(cache, store, id);
    let ctx = cache.peek(id);
    proof {
        assert(ctx_matches(*ctx, *store, id));
    }
    let slot = ctx.scripts.slot(kind);
    proof {
        match kind {
            AuthorityKind::Mint => assert(slot_view(ctx.scripts.mint) == spec_ctx_slot(
                *store,
                id,
                kind,
            )),
            AuthorityKind::Blacklist => assert(slot_view(ctx.scripts.blacklist) == spec_ctx_slot(
                *store,
                id,
                kind,
            )),
            AuthorityKind::Master => assert(slot_view(ctx.scripts.master) == spec_ctx_slot(
                *store,
                id,
                kind,
            )),
        }
    }
    match slot {
        Some(c) => Some(
            CompactScript { kind: c.compact.kind, body: clone_bytes(&c.compact.body) },
        ),
        None => None,
    }
}

/// The recorded authority-minted supply of a rune.
pub fn get_supply_extra(cache: &mut AuthorityContextCache, store: &Store, id: RuneId) -> (r: u128)
    requires
        store.wf(),
        old(cache).wf(),
        cache_ok(*old(cache), *store),
    ensures
        final(cache).wf(),
        final(cache).max_bytes == old(cache).max_bytes,
        cache_ok(*final(cache), *store),
        forall|k: RuneId, c: AuthorityContext|
            final(cache).spec_cget(k) == Some(c) ==> (old(cache).spec_cget(k) == Some(c) || k
                == id),
        r == spec_supply_extra_of(*store, id),
{
    get_context_cached(cache, store, id);
    let ctx = cache.peek(id);
    proof {
        assert(ctx_matches(*ctx, *store, id));
    }
    ctx.supply_extra
}

/// Records the authority-minted supply of a rune; zero is not persisted.
/// The cached context is updated in place.
pub fn set_supply_extra(
    cache: &mut AuthorityContextCache,
    store: &mut Store,
    id: RuneId,
    value: u128,
)
    requires
        old(store).wf(),
        old(cache).wf(),
        cache_ok(*old(cache), *old(store)),
    ensures
        final(store).wf(),
        final(cache).wf(),
        final(cache).max_bytes == old(cache).max_bytes,
        cache_ok(*final(cache), *final(store)),
        value == 0 ==> *final(store) == *old(store) && *final(cache) == *old(cache),
        value != 0 ==> {
            &&& final(cache).entries@.len() == old(cache).entries@.len()
            &&& final(cache).current_bytes == old(cache).current_bytes
            &&& forall|j: int|
                0 <= j < old(cache).entries@.len() ==> (#[trigger] final(cache).entries@[j]).0
                    == old(cache).entries@[j].0
        },
        value != 0 ==> {
            &&& final(store).supply_extra.spec_get(id) == Some(value)
            &&& forall|k: RuneId|
                k != id ==> final(store).supply_extra.spec_get(k) == old(
                    store,
                ).supply_extra.spec_get(k)
            &&& final(store).outpoint_balances == old(store).outpoint_balances
            &&& final(store).authority_flags == old(store).authority_flags
            &&& final(store).authority_scripts == old(store).authority_scripts
            &&& final(store).minters == old(store).minters
            &&& final(store).blacklist == old(store).blacklist
            &&& final(store).entries == old(store).entries
            &&& final(store).rune_to_id == old(store).rune_to_id
            &&& final(store).runes == old(store).runes
            &&& final(store).reserved_runes == old(store).reserved_runes
        },
{
    if value == 0 {
        return;
    }
    store.supply_extra.insert(id, value);
    cache.update_supply_extra(id, value);
    proof {
        assert forall|k: RuneId| (#[trigger] cache.spec_cget(k)) is Some implies ctx_matches(
            cache.spec_cget(k).unwrap(),
            *store,
            k,
        ) by {
            let c = cache.spec_cget(k).unwrap();
            assert(spec_blob_of(*store, k) == spec_blob_of(*old(store), k));
            assert(store.minters.spec_multi(k) == old(store).minters.spec_multi(k));
            assert(store.blacklist.spec_multi(k) == old(store).blacklist.spec_multi(k));
            if k == id {
                let c0 = old(cache).spec_cget(id).unwrap();
                assert(ctx_matches(c0, *old(store), id));
                assert(c == AuthorityContext { supply_extra: value, ..c0 });
                assert(c.spec_size() == c0.spec_size());
                assert(c.wf());
            } else {
                assert(cache.spec_cget(k) == old(cache).spec_cget(k));
                assert(ctx_matches(c, *old(store), k));
                assert(spec_supply_extra_of(*store, k) == spec_supply_extra_of(*old(store), k));
            }
        }
    }
}


/// Whether the transaction spends the authority script of `kind` for rune
/// `id` among its first ten inputs; blacklisted prevouts cannot authorize.
pub fn check_authority(
    cache: &mut AuthorityContextCache,
    sc: &mut ScriptCache,
    store: &Store,
    node: &NodeView,
    tx: &Tx,
    id: RuneId,
    kind: AuthorityKind,
) -> (r: bool)
    requires
        store.wf(),
        old(cache).wf(),
        cache_ok(*old(cache), *store),
        old(sc).wf(),
        old(sc).coherent(*node),
    ensures
        final(cache).wf(),
        final(cache).max_bytes == old(cache).max_bytes,
        cache_ok(*final(cache), *store),
        forall|k: RuneId, c: AuthorityContext|
            final(cache).spec_cget(k) == Some(c) ==> (old(cache).spec_cget(k) == Some(c) || k
                == id),
        final(sc).wf(),
        final(sc).max_bytes == old(sc).max_bytes,
        final(sc).coherent(*node),
        r == spec_check_authority(*store, *node, *tx, id, kind),
{
    let expected: Vec<u8>;
    let slot = get_authority_script(cache, store, id, kind);
    match slot {
        None => {
            return false;
        },
        Some(c) => {
            match c.to_script() {
                None => {
                    return false;
                },
                Some(s) => {
                    expected = s;
                },
            }
        },
    }
    proof {
        assert(spec_expected_script(*store, id, kind) == Some(expected@));
    }
    let ghost es = expected@;
    let cap = if tx.inputs.len() < AUTHORITY_INPUT_LIMIT {
        tx.inputs.len()
    } else {
        AUTHORITY_INPUT_LIMIT
    };
    let mut i: usize = 0;
    while i < cap
        invariant
            i <= cap,
            cap == spec_input_cap(*tx),
            cap <= tx.inputs@.len(),
            store.wf(),
            cache.wf(),
            cache.max_bytes == old(cache).max_bytes,
            cache_ok(*cache, *store),
            forall|k: RuneId, c: AuthorityContext|
                cache.spec_cget(k) == Some(c) ==> (old(cache).spec_cget(k) == Some(c) || k == id),
            sc.wf(),
            sc.max_bytes == old(sc).max_bytes,
            sc.coherent(*node),
            expected@ == es,
            spec_expected_script(*store, id, kind) == Some(es),
            forall|j: int|
                0 <= j < i ==> !(spec_input_script(*node, *tx, j) == Some(es)
                    && !spec_is_blacklisted(*store, id, es)),
        decreases cap - i,
    {
        let input = &tx.inputs[i];
        proof {
            assert(*input == tx.inputs@[i as int]);
        }
        let fetched = sc.get_script_pubkey(node, &input.prevout.txid, input.prevout.vout);
        match fetched {
            Some(s) => {
                proof {
                    assert(spec_input_script(*node, *tx, i as int) == Some(s@));
                }
                let bl = is_blacklisted(cache, store, id, &s);
                if !bl && bytes_eq(&s, &expected) {
                    proof {
                        assert(spec_input_script(*node, *tx, i as int) == Some(es));
                        assert(!spec_is_blacklisted(*store, id, es));
                    }
                    return true;
                }
                proof {
                    if spec_input_script(*node, *tx, i as int) == Some(es)
                        && !spec_is_blacklisted(*store, id, es) {
                        assert(s@ == es);
                        assert(!bl);
                        assert(false);
                    }
                }
            },
            None => {
                proof {
                    assert(spec_input_script(*node, *tx, i as int) is None);
                }
            },
        }
        i = i + 1;
    }
    proof {
        if spec_check_authority(*store, *node, *tx, id, kind) {
            let j = choose|j: int|
                0 <= j < spec_input_cap(*tx) && spec_input_script(*node, *tx, j) == Some(es);
            assert(!(spec_input_script(*node, *tx, j) == Some(es) && !spec_is_blacklisted(
                *store,
                id,
                es,
            )));
        }
    }
    false
}

/// Whether some byte vector of `list` equals `needle`.
pub fn contains_bytes(list: &Vec<Vec<u8>>, needle: &Vec<u8>) -> (r: bool)
    ensures
        r == exists|m: int| 0 <= m < list@.len() && (#[trigger] list@[m])@ == needle@,
{
    let mut m: usize = 0;
    while m < list.len()
        invariant
            m <= list@.len(),
            forall|j: int| 0 <= j < m ==> (#[trigger] list@[j])@ != needle@,
        decreases list@.len() - m,
    {
        if bytes_eq(&list[m], needle) {
            return true;
        }
        m = m + 1;
    }
    false
}

/// Whether the transaction may mint rune `id`: it holds the master
/// authority, or spends one of the rune's listed minter scripts among its
/// first ten inputs; blacklisted prevouts cannot authorize.
#[verifier::rlimit(60)]
pub fn check_is_minter(
    cache: &mut AuthorityContextCache,
    sc: &mut ScriptCache,
    store: &Store,
    node: &NodeView,
    tx: &Tx,
    id: RuneId,
) -> (r: bool)
    requires
        store.wf(),
        old(cache).wf(),
        cache_ok(*old(cache), *store),
        old(sc).wf(),
        old(sc).coherent(*node),
    ensures
        final(cache).wf(),
        final(cache).max_bytes == old(cache).max_bytes,
        cache_ok(*final(cache), *store),
        forall|k: RuneId, c: AuthorityContext|
            final(cache).spec_cget(k) == Some(c) ==> (old(cache).spec_cget(k) == Some(c) || k
                == id),
        final(sc).wf(),
        final(sc).max_bytes == old(sc).max_bytes,
        final(sc).coherent(*node),
        r == spec_check_is_minter(*store, *node, *tx, id),
{
    if check_authority(cache, sc, store, node, tx, id, AuthorityKind::Master) {
        return true;
    }
    let ghost ms = spec_ctx_minters(*store, id);
    let mut minter_scripts: Vec<Vec<u8>> = Vec::new();
    {
        get_context_cached(cache, store, id);
        let ctx = cache.peek(id);
        proof {
            assert(ctx_matches(*ctx, *store, id));
            assert(ctx.minters@.map_values(|x: CachedScript| x.view_pair()) == ms);
            lemma_decode_list_bodies(store.minters.spec_multi(id));
        }
        if ctx.minters.len() == 0 {
            proof {
                assert(ms.len() == 0);
            }
            return false;
        }
        let n = ctx.minters.len();
        let mut m: usize = 0;
        while m < n
            invariant
                m <= n,
                n == ctx.minters@.len(),
                cache.wf(),
                cache.max_bytes == old(cache).max_bytes,
                cache_ok(*cache, *store),
                forall|k: RuneId, c: AuthorityContext|
                    cache.spec_cget(k) == Some(c) ==> (old(cache).spec_cget(k) == Some(c) || k
                        == id),
                ms == spec_ctx_minters(*store, id),
                forall|j: int| 0 <= j < ctx.minters@.len() ==> (#[trigger] ctx.minters@[j]).wf(),
                ms == ctx.minters@.map_values(|x: CachedScript| x.view_pair()),
                forall|j: int| 0 <= j < ms.len() ==> 1 <= (#[trigger] ms[j]).1.len() <= 32,
                minter_scripts@.len() == m,
                forall|j: int|
                    0 <= j < m ==> Some((#[trigger] minter_scripts@[j])@) == spec_minter_script(
                        *store,
                        id,
                        j,
                    ),
            decreases n - m,
        {
            proof {
                assert(ctx.minters@[m as int].view_pair() == ms[m as int]);
                assert(ctx.minters@[m as int].wf());
                assert(1 <= ms[m as int].1.len() <= 32);
            }
            match &ctx.minters[m].script {
                Some(sv) => {
                    minter_scripts.push(clone_bytes(sv));
                },
                None => {
                    proof {
                        assert(false);
                    }
                },
            }
            m = m + 1;
        }
    }
    let ghost n_minters = ms.len();
    let cap = if tx.inputs.len() < AUTHORITY_INPUT_LIMIT {
        tx.inputs.len()
    } else {
        AUTHORITY_INPUT_LIMIT
    };
    let mut i: usize = 0;
    while i < cap
        invariant
            i <= cap,
            cap == spec_input_cap(*tx),
            cap <= tx.inputs@.len(),
            store.wf(),
            cache.wf(),
            cache.max_bytes == old(cache).max_bytes,
            cache_ok(*cache, *store),
            forall|k: RuneId, c: AuthorityContext|
                cache.spec_cget(k) == Some(c) ==> (old(cache).spec_cget(k) == Some(c) || k == id),
            sc.wf(),
            sc.max_bytes == old(sc).max_bytes,
            sc.coherent(*node),
            ms == spec_ctx_minters(*store, id),
            minter_scripts@.len() == ms.len(),
            forall|j: int|
                0 <= j < ms.len() ==> Some((#[trigger] minter_scripts@[j])@) == spec_minter_script(
                    *store,
                    id,
                    j,
                ),
            forall|j: int, m2: int|
                #![trigger spec_input_script(*node, *tx, j), spec_minter_script(*store, id, m2)]
                0 <= j < i && 0 <= m2 < ms.len() ==> !(spec_input_script(*node, *tx, j)
                    == spec_minter_script(*store, id, m2) && spec_minter_script(*store, id, m2)
                    is Some && !spec_is_blacklisted(
                    *store,
                    id,
                    spec_minter_script(*store, id, m2).unwrap(),
                )),
        decreases cap - i,
    {
        let input = &tx.inputs[i];
        proof {
            assert(*input == tx.inputs@[i as int]);
        }
        let fetched = sc.get_script_pubkey(node, &input.prevout.txid, input.prevout.vout);
        match fetched {
            Some(s) => {
                proof {
                    assert(spec_input_script(*node, *tx, i as int) == Some(s@));
                }
                let bl = is_blacklisted(cache, store, id, &s);
                if !bl {
                    if contains_bytes(&minter_scripts, &s) {
                        proof {
                            let m2 = choose|m2: int|
                                0 <= m2 < minter_scripts@.len()
                                    && (#[trigger] minter_scripts@[m2])@ == s@;
                            assert(spec_minter_script(*store, id, m2) == Some(s@));
                            assert(spec_input_script(*node, *tx, i as int) == spec_minter_script(
                                *store,
                                id,
                                m2,
                            ));
                            assert(!spec_is_blacklisted(*store, id, s@));
                        }
                        return true;
                    }
                    proof {
                        assert forall|m2: int|
                            0 <= m2 < ms.len() implies !((#[trigger] spec_minter_script(
                            *store,
                            id,
                            m2,
                        )) == Some(s@)) by {
                            if spec_minter_script(*store, id, m2) == Some(s@) {
                                assert(minter_scripts@[m2]@ == s@);
                            }
                        }
                    }
                } else {
                    proof {
                        assert forall|m2: int|
                            0 <= m2 < ms.len() && (#[trigger] spec_minter_script(*store, id, m2))
                                == Some(s@) implies spec_is_blacklisted(
                            *store,
                            id,
                            spec_minter_script(*store, id, m2).unwrap(),
                        ) by {}
                    }
                }
            },
            None => {},
        }
        i = i + 1;
    }
    proof {
        if spec_check_is_minter(*store, *node, *tx, id) {
            assert(!spec_check_authority(*store, *node, *tx, id, AuthorityKind::Master));
            let (j, m2): (int, int) = choose|j: int, m2: int|
                #![trigger spec_input_script(*node, *tx, j), spec_minter_script(*store, id, m2)]
                0 <= j < spec_input_cap(*tx) && 0 <= m2 < spec_ctx_minters(*store, id).len()
                    && spec_input_script(*node, *tx, j) == spec_minter_script(*store, id, m2)
                    && spec_minter_script(*store, id, m2) is Some && !spec_is_blacklisted(
                    *store,
                    id,
                    spec_minter_script(*store, id, m2).unwrap(),
                );
            assert(false);
        }
    }
    false
}

} // verus!
