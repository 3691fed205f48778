//! The per-rune materialized authority view and its byte-budgeted LRU cache.
use vstd::prelude::*;

use crate::RuneId;
use crate::authority_bits::{AuthorityBits, AuthorityKind};
use crate::bloom::ScriptBloom;
use crate::bytes::clone_bytes;
use crate::compact_script::{spec_to_script, CompactScript, CompactScriptKind};
use crate::kv::{dup_free, lemma_seq_get_absent, lemma_seq_get_by_index,
    lemma_seq_get_none_absent, lemma_seq_get_push_fresh, lemma_seq_get_remove,
    lemma_seq_get_update, seq_get};

verus! {

/// A compact script together with its reconstructed scriptPubKey.
#[derive(Debug)]
pub struct CachedScript {
    pub compact: CompactScript,
    pub script: Option<Vec<u8>>,
}

impl CachedScript {
    /// The reconstruction is exactly what `to_script` yields, and bodies held
    /// in contexts are at most 255 bytes (their length fits the stored length
    /// byte).
    pub open spec fn wf(self) -> bool {
        &&& self.compact.body@.len() <= 255
        &&& match self.script {
            Some(s) => spec_to_script(self.compact.kind, self.compact.body@) == Some(s@),
            None => spec_to_script(self.compact.kind, self.compact.body@) is None,
        }
    }

    /// The mathematical value: the (kind, body) pair.
    pub open spec fn view_pair(self) -> (CompactScriptKind, Seq<u8>) {
        self.compact.view_pair()
    }

    /// The reconstructed scriptPubKey, if the body length admits one.
    pub open spec fn spec_script(self) -> Option<Seq<u8>> {
        spec_to_script(self.compact.kind, self.compact.body@)
    }

    pub fn new(compact: CompactScript) -> (r: Self)
        requires
            compact.body@.len() <= 255,
        ensures
            r.wf(),
            r.view_pair() == compact.view_pair(),
    {
        let script = compact.to_script();
        CachedScript { compact, script }
    }

    /// Memory the entry accounts for: compact body, reconstruction, and a
    /// small bookkeeping overhead.
    pub open spec fn spec_size(self) -> nat {
        let script_len: nat = match self.script {
            Some(s) => s@.len(),
            None => 0,
        };
        self.compact.body@.len() + script_len + 16
    }

    pub fn size_bytes(&self) -> (r: u64)
        requires
            self.wf(),
        ensures
            r == self.spec_size(),
            r <= 528,
    {
        let script_len: usize = match &self.script {
            Some(s) => s.len(),
            None => 0,
        };
        (self.compact.body.len() as u64) + (script_len as u64) + 16
    }
}

/// The up-to-three authority scripts of a rune, in fixed slot order.
#[derive(Debug)]
pub struct AuthorityScripts {
    pub mint: Option<CachedScript>,
    pub blacklist: Option<CachedScript>,
    pub master: Option<CachedScript>,
}

impl AuthorityScripts {
    pub open spec fn wf(self) -> bool {
        &&& (self.mint matches Some(c) ==> c.wf())
        &&& (self.blacklist matches Some(c) ==> c.wf())
        &&& (self.master matches Some(c) ==> c.wf())
    }

    pub open spec fn spec_slot(self, kind: AuthorityKind) -> Option<CachedScript> {
        match kind {
            AuthorityKind::Mint => self.mint,
            AuthorityKind::Blacklist => self.blacklist,
            AuthorityKind::Master => self.master,
        }
    }

    pub fn slot(&self, kind: AuthorityKind) -> (r: &Option<CachedScript>)
        ensures
            *r == self.spec_slot(kind),
    {
        match kind {
            AuthorityKind::Mint => &self.mint,
            AuthorityKind::Blacklist => &self.blacklist,
            AuthorityKind::Master => &self.master,
        }
    }

    pub open spec fn spec_size(self) -> nat {
        (match self.mint {
            Some(c) => c.spec_size(),
            None => 0,
        }) + (match self.blacklist {
            Some(c) => c.spec_size(),
            None => 0,
        }) + (match self.master {
            Some(c) => c.spec_size(),
            None => 0,
        })
    }

    pub fn size_bytes(&self) -> (r: u64)
        requires
            self.wf(),
        ensures
            r == self.spec_size(),
            r <= 1584,
    {
        (match &self.mint {
            Some(c) => c.size_bytes(),
            None => 0,
        }) + (match &self.blacklist {
            Some(c) => c.size_bytes(),
            None => 0,
        }) + (match &self.master {
            Some(c) => c.size_bytes(),
            None => 0,
        })
    }
}

/// Sum of the sizes of a list of cached scripts.
pub open spec fn cs_seq_size(s: Seq<CachedScript>) -> nat
    decreases s.len(),
{
    if s.len() == 0 {
        0
    } else {
        s.first().spec_size() + cs_seq_size(s.drop_first())
    }
}

pub proof fn lemma_cs_seq_size_bound(s: Seq<CachedScript>)
    requires
        forall|i: int| 0 <= i < s.len() ==> #[trigger] s[i].wf(),
    ensures
        cs_seq_size(s) <= s.len() * 528,
    decreases s.len(),
{
    if s.len() > 0 {
        assert(s.first().wf());
        assert(s.first().spec_size() <= 528);
        assert(forall|i: int|
            0 <= i < s.drop_first().len() ==> #[trigger] s.drop_first()[i].wf());
        lemma_cs_seq_size_bound(s.drop_first());
    }
}

pub proof fn lemma_cs_seq_size_push(s: Seq<CachedScript>, e: CachedScript)
    ensures
        cs_seq_size(s.push(e)) == cs_seq_size(s) + e.spec_size(),
    decreases s.len(),
{
    if s.len() == 0 {
        assert(s.push(e).first() == e);
        assert(s.push(e).drop_first() =~= Seq::empty());
        assert(cs_seq_size(s.push(e).drop_first()) == 0);
    } else {
        assert(s.push(e).first() == s.first());
        assert(s.push(e).drop_first() =~= s.drop_first().push(e));
        lemma_cs_seq_size_push(s.drop_first(), e);
    }
}

/// The materialized authority view of one rune.
#[derive(Debug)]
pub struct AuthorityContext {
    pub flags: AuthorityBits,
    pub scripts: AuthorityScripts,
    pub minters: Vec<CachedScript>,
    pub blacklist: Vec<CachedScript>,
    pub blacklist_bloom: Option<ScriptBloom>,
    pub supply_extra: u128,
}

impl AuthorityContext {
    /// Every held script is well formed, and the bloom filter, when present,
    /// admits every blacklisted script: a blacklist check that the filter
    /// rejects is certain to fail the linear scan too.
    pub open spec fn wf(self) -> bool {
        &&& self.scripts.wf()
        &&& self.spec_size() < 0x100000000000000000000
        &&& forall|i: int| 0 <= i < self.minters@.len() ==> #[trigger] self.minters@[i].wf()
        &&& forall|i: int| 0 <= i < self.blacklist@.len() ==> #[trigger] self.blacklist@[i].wf()
        &&& match self.blacklist_bloom {
            Some(b) => {
                &&& b.wf()
                &&& forall|i: int|
                    0 <= i < self.blacklist@.len() && (#[trigger] self.blacklist@[i]).spec_script()
                        is Some ==> b.spec_might_contain(self.blacklist@[i].spec_script().unwrap())
            },
            None => true,
        }
    }

    pub open spec fn spec_size(self) -> nat {
        1 + self.scripts.spec_size() + cs_seq_size(self.minters@) + cs_seq_size(self.blacklist@)
            + (match self.blacklist_bloom {
            Some(b) => b.bits@.len() * 8,
            None => 0,
        }) + 16
    }

    pub fn size_bytes(&self) -> (r: u128)
        requires
            self.wf(),
        ensures
            r == self.spec_size(),
    {
        let mut minters_size: u128 = 0;
        let mut i: usize = 0;
        while i < self.minters.len()
            invariant
                i <= self.minters@.len(),
                forall|j: int| 0 <= j < self.minters@.len() ==> #[trigger] self.minters@[j].wf(),
                minters_size == cs_seq_size(self.minters@.take(i as int)),
                minters_size <= i * 528,
            decreases self.minters@.len() - i,
        {
            proof {
                lemma_cs_seq_size_push(self.minters@.take(i as int), self.minters@[i as int]);
                assert(self.minters@.take(i + 1) =~= self.minters@.take(i as int).push(
                    self.minters@[i as int],
                ));
            }
            minters_size = minters_size + (self.minters[i].size_bytes() as u128);
            i = i + 1;
        }
        proof {
            assert(self.minters@.take(self.minters@.len() as int) =~= self.minters@);
        }
        let mut blacklist_size: u128 = 0;
        let mut i: usize = 0;
        while i < self.blacklist.len()
            invariant
                i <= self.blacklist@.len(),
                forall|j: int|
                    0 <= j < self.blacklist@.len() ==> #[trigger] self.blacklist@[j].wf(),
                blacklist_size == cs_seq_size(self.blacklist@.take(i as int)),
                blacklist_size <= i * 528,
            decreases self.blacklist@.len() - i,
        {
            proof {
                lemma_cs_seq_size_push(self.blacklist@.take(i as int), self.blacklist@[i as int]);
                assert(self.blacklist@.take(i + 1) =~= self.blacklist@.take(i as int).push(
                    self.blacklist@[i as int],
                ));
            }
            blacklist_size = blacklist_size + (self.blacklist[i].size_bytes() as u128);
            i = i + 1;
        }
        proof {
            assert(self.blacklist@.take(self.blacklist@.len() as int) =~= self.blacklist@);
        }
        let bloom_size: u64 = match &self.blacklist_bloom {
            Some(b) => (b.byte_size() as u64),
            None => 0,
        };
        1 + (self.scripts.size_bytes() as u128) + minters_size + blacklist_size + (
        bloom_size as u128) + 16
    }
}

/// Sum of the sizes of the cached contexts.
pub open spec fn ctx_seq_size(s: Seq<(RuneId, AuthorityContext)>) -> nat
    decreases s.len(),
{
    if s.len() == 0 {
        0
    } else {
        s.first().1.spec_size() + ctx_seq_size(s.drop_first())
    }
}

/// Size of the largest cached context.
pub open spec fn ctx_seq_max(s: Seq<(RuneId, AuthorityContext)>) -> nat
    decreases s.len(),
{
    if s.len() == 0 {
        0
    } else {
        let rest = ctx_seq_max(s.drop_first());
        if s.first().1.spec_size() > rest {
            s.first().1.spec_size()
        } else {
            rest
        }
    }
}

pub proof fn lemma_ctx_seq_size_remove(s: Seq<(RuneId, AuthorityContext)>, i: int)
    requires
        0 <= i < s.len(),
    ensures
        ctx_seq_size(s) == ctx_seq_size(s.remove(i)) + s[i].1.spec_size(),
    decreases s.len(),
{
    if i == 0 {
        assert(s.remove(0) =~= s.drop_first());
    } else {
        assert(s.remove(i).drop_first() =~= s.drop_first().remove(i - 1));
        lemma_ctx_seq_size_remove(s.drop_first(), i - 1);
    }
}

pub proof fn lemma_ctx_seq_size_push(s: Seq<(RuneId, AuthorityContext)>, e: (RuneId, AuthorityContext))
    ensures
        ctx_seq_size(s.push(e)) == ctx_seq_size(s) + e.1.spec_size(),
    decreases s.len(),
{
    if s.len() == 0 {
        assert(s.push(e).first() == e);
        assert(s.push(e).drop_first() =~= Seq::empty());
        assert(ctx_seq_size(s.push(e).drop_first()) == 0);
    } else {
        assert(s.push(e).first() == s.first());
        assert(s.push(e).drop_first() =~= s.drop_first().push(e));
        lemma_ctx_seq_size_push(s.drop_first(), e);
    }
}

pub proof fn lemma_ctx_seq_max_remove(s: Seq<(RuneId, AuthorityContext)>, i: int)
    requires
        0 <= i < s.len(),
    ensures
        ctx_seq_max(s) == if s[i].1.spec_size() > ctx_seq_max(s.remove(i)) {
            s[i].1.spec_size()
        } else {
            ctx_seq_max(s.remove(i))
        },
    decreases s.len(),
{
    if i == 0 {
        assert(s.remove(0) =~= s.drop_first());
    } else {
        assert(s.remove(i).first() == s.first());
        assert(s.remove(i).drop_first() =~= s.drop_first().remove(i - 1));
        lemma_ctx_seq_max_remove(s.drop_first(), i - 1);
    }
}

/// Removing any entry keeps the byte count within the budget bound.
pub proof fn lemma_budget_after_remove(s: Seq<(RuneId, AuthorityContext)>, i: int, maxb: nat)
    requires
        0 <= i < s.len(),
        ctx_seq_size(s) <= if maxb > ctx_seq_max(s) {
            maxb
        } else {
            ctx_seq_max(s)
        },
    ensures
        ctx_seq_size(s.remove(i)) <= if maxb > ctx_seq_max(s.remove(i)) {
            maxb
        } else {
            ctx_seq_max(s.remove(i))
        },
{
    lemma_ctx_seq_size_remove(s, i);
    lemma_ctx_seq_max_remove(s, i);
}

pub proof fn lemma_ctx_seq_max_push(s: Seq<(RuneId, AuthorityContext)>, e: (RuneId, AuthorityContext))
    ensures
        ctx_seq_max(s.push(e)) == if e.1.spec_size() > ctx_seq_max(s) {
            e.1.spec_size()
        } else {
            ctx_seq_max(s)
        },
    decreases s.len(),
{
    if s.len() == 0 {
        assert(s.push(e).first() == e);
        assert(s.push(e).drop_first() =~= Seq::empty());
        assert(ctx_seq_max(s.push(e).drop_first()) == 0);
    } else {
        assert(s.push(e).first() == s.first());
        assert(s.push(e).drop_first() =~= s.drop_first().push(e));
        lemma_ctx_seq_max_push(s.drop_first(), e);
    }
}

pub proof fn lemma_ctx_seq_max_bound(s: Seq<(RuneId, AuthorityContext)>)
    requires
        forall|i: int| 0 <= i < s.len() ==> #[trigger] s[i].1.wf(),
    ensures
        ctx_seq_max(s) < 0x100000000000000000000,
    decreases s.len(),
{
    if s.len() > 0 {
        assert(s[0].1.wf());
        assert(forall|i: int|
            0 <= i < s.drop_first().len() ==> #[trigger] s.drop_first()[i].1.wf());
        lemma_ctx_seq_max_bound(s.drop_first());
    }
}

/// Replacing an entry by one of equal size moves neither the byte count
/// nor the largest-context bound.
pub proof fn lemma_ctx_update_sums(
    s: Seq<(RuneId, AuthorityContext)>,
    i: int,
    e: (RuneId, AuthorityContext),
)
    requires
        0 <= i < s.len(),
        e.1.spec_size() == s[i].1.spec_size(),
    ensures
        ctx_seq_size(s.update(i, e)) == ctx_seq_size(s),
        ctx_seq_max(s.update(i, e)) == ctx_seq_max(s),
    decreases s.len(),
{
    if i == 0 {
        assert(s.update(0, e).first() == e);
        assert(s.update(0, e).drop_first() =~= s.drop_first());
    } else {
        assert(s.update(i, e).first() == s.first());
        assert(s.update(i, e).drop_first() =~= s.drop_first().update(i - 1, e));
        lemma_ctx_update_sums(s.drop_first(), i - 1, e);
    }
}

/// Bounded LRU cache of authority contexts, keyed by rune id. Most recently
/// used entries sit at the end of the vector; eviction removes from the
/// front. If a single inserted context exceeds the configured budget, the
/// effective budget grows to hold exactly that context.
#[derive(Debug)]
pub struct AuthorityContextCache {
    pub entries: Vec<(RuneId, AuthorityContext)>,
    pub max_bytes: usize,
    pub current_bytes: u128,
}

impl AuthorityContextCache {
    /// Keys unique, contexts well formed, the byte counter exact, and the
    /// count within the configured budget or the largest single context.
    pub open spec fn wf(self) -> bool {
        &&& dup_free(self.entries@)
        &&& forall|i: int| 0 <= i < self.entries@.len() ==> #[trigger] self.entries@[i].1.wf()
        &&& self.current_bytes == ctx_seq_size(self.entries@)
        &&& self.current_bytes <= if self.max_bytes as nat > ctx_seq_max(self.entries@) {
            self.max_bytes as nat
        } else {
            ctx_seq_max(self.entries@)
        }
    }

    pub open spec fn spec_cget(self, k: RuneId) -> Option<AuthorityContext> {
        seq_get(self.entries@, k)
    }

    pub fn new(max_bytes: usize) -> (r: Self)
        ensures
            r.wf(),
            r.max_bytes == max_bytes,
            forall|k: RuneId| r.spec_cget(k) is None,
    {
        let r = AuthorityContextCache { entries: Vec::new(), max_bytes, current_bytes: 0 };
        proof {
            assert forall|k: RuneId| r.spec_cget(k) is None by {
                lemma_seq_get_absent(r.entries@, k);
            }
        }
        r
    }

    pub fn contains(&self, rune_id: RuneId) -> (r: bool)
        requires
            self.wf(),
        ensures
            r == (self.spec_cget(rune_id) is Some),
    {
        let n = self.entries.len();
        let mut i: usize = 0;
        while i < n
            invariant
                i <= n,
                n == self.entries@.len(),
                dup_free(self.entries@),
                forall|j: int| 0 <= j < i ==> self.entries@[j].0 != rune_id,
            decreases n - i,
        {
            let hit = {
                let e = &self.entries[i];
                e.0.block == rune_id.block && e.0.tx == rune_id.tx
            };
            if hit {
                proof {
                    lemma_seq_get_by_index(self.entries@, i as int);
                }
                return true;
            }
            i = i + 1;
        }
        proof {
            lemma_seq_get_absent(self.entries@, rune_id);
        }
        false
    }

    /// Index of the entry for `rune_id`, when present.
    fn find(&self, rune_id: RuneId) -> (r: Option<usize>)
        requires
            self.wf(),
        ensures
            match r {
                Some(i) => {
                    &&& i < self.entries@.len()
                    &&& self.entries@[i as int].0 == rune_id
                    &&& self.spec_cget(rune_id) == Some(self.entries@[i as int].1)
                },
                None => self.spec_cget(rune_id) is None,
            },
    {
        let n = self.entries.len();
        let mut i: usize = 0;
        while i < n
            invariant
                i <= n,
                n == self.entries@.len(),
                dup_free(self.entries@),
                forall|j: int| 0 <= j < i ==> self.entries@[j].0 != rune_id,
            decreases n - i,
        {
            let hit = {
                let e = &self.entries[i];
                e.0.block == rune_id.block && e.0.tx == rune_id.tx
            };
            if hit {
                proof {
                    lemma_seq_get_by_index(self.entries@, i as int);
                }
                return Some(i);
            }
            i = i + 1;
        }
        proof {
            lemma_seq_get_absent(self.entries@, rune_id);
        }
        None
    }

    /// Removes the entry for `rune_id` and reclaims its bytes.
    pub fn invalidate(&mut self, rune_id: RuneId)
        requires
            old(self).wf(),
        ensures
            final(self).wf(),
            final(self).max_bytes == old(self).max_bytes,
            final(self).spec_cget(rune_id) is None,
            forall|k: RuneId| k != rune_id ==> final(self).spec_cget(k) == old(self).spec_cget(k),
            forall|k: RuneId, c: AuthorityContext|
                final(self).spec_cget(k) == Some(c) ==> old(self).spec_cget(k) == Some(c),
    {
        let found = self.find(rune_id);
        if let Some(i) = found {
            let size = self.entries[i].1.size_bytes();
            proof {
                lemma_ctx_seq_size_remove(self.entries@, i as int);
                lemma_ctx_seq_max_remove(self.entries@, i as int);
                lemma_budget_after_remove(self.entries@, i as int, self.max_bytes as nat);
                lemma_seq_get_remove(self.entries@, i as int, rune_id);
            }
            let _ = self.entries.remove(i);
            self.current_bytes = self.current_bytes - size;
            proof {
                assert forall|k: RuneId, c: AuthorityContext|
                    final(self).spec_cget(k) == Some(c) implies old(self).spec_cget(k) == Some(
                    c,
                ) by {
                    if k == rune_id {
                        assert(final(self).spec_cget(k) is None);
                    }
                }
            }
        }
    }

    /// Rewrites the cached supply-extra value in place: the recency order,
    /// the byte count and every other entry stay exactly as they were.
    pub fn update_supply_extra(&mut self, rune_id: RuneId, value: u128)
        requires
            old(self).wf(),
        ensures
            final(self).wf(),
            final(self).max_bytes == old(self).max_bytes,
            final(self).current_bytes == old(self).current_bytes,
            final(self).entries@.len() == old(self).entries@.len(),
            forall|j: int|
                0 <= j < old(self).entries@.len() ==> (#[trigger] final(self).entries@[j]).0
                    == old(self).entries@[j].0 && (if old(self).entries@[j].0 == rune_id {
                    final(self).entries@[j].1 == AuthorityContext {
                        supply_extra: value,
                        ..old(self).entries@[j].1
                    }
                } else {
                    final(self).entries@[j].1 == old(self).entries@[j].1
                }),
            match old(self).spec_cget(rune_id) {
                Some(c) => final(self).spec_cget(rune_id) == Some(
                    AuthorityContext { supply_extra: value, ..c },
                ),
                None => final(self).spec_cget(rune_id) is None,
            },
            forall|k: RuneId| k != rune_id ==> final(self).spec_cget(k) == old(self).spec_cget(k),
    {
        let found = self.find(rune_id);
        if let Some(i) = found {
            proof {
                lemma_ctx_seq_size_remove(self.entries@, i as int);
                lemma_ctx_seq_max_remove(self.entries@, i as int);
                lemma_seq_get_remove(self.entries@, i as int, rune_id);
            }
            let mut e = self.entries.remove(i);
            e.1.supply_extra = value;
            proof {
                assert(old(self).entries@[i as int].1.wf());
                assert(e.1.spec_size() == old(self).entries@[i as int].1.spec_size());
                assert(e.1.wf());
                assert(self.entries@.insert(i as int, (rune_id, e.1)) =~= old(
                    self,
                ).entries@.update(i as int, (rune_id, e.1)));
                lemma_seq_get_update(old(self).entries@, i as int, rune_id, e.1);
                lemma_ctx_update_sums(old(self).entries@, i as int, (rune_id, e.1));
                assert forall|j: int|
                    0 <= j < old(self).entries@.len() implies (#[trigger] old(
                    self,
                ).entries@.update(i as int, (rune_id, e.1))[j]).1.wf() by {
                    if j != i {
                        assert(old(self).entries@.update(i as int, (rune_id, e.1))[j] == old(
                            self,
                        ).entries@[j]);
                        assert(old(self).entries@[j].1.wf());
                    }
                }
            }
            self.entries.insert(i, (rune_id, e.1));
        } else {
            proof {
                crate::kv::lemma_seq_get_none_absent(self.entries@, rune_id);
            }
        }
    }

    /// Moves the entry for `rune_id` to most-recently-used; the other
    /// entries keep their relative recency order.
    pub fn touch(&mut self, rune_id: RuneId)
        requires
            old(self).wf(),
            old(self).spec_cget(rune_id) is Some,
        ensures
            final(self).wf(),
            final(self).max_bytes == old(self).max_bytes,
            forall|k: RuneId| final(self).spec_cget(k) == old(self).spec_cget(k),
            exists|i: int|
                0 <= i < old(self).entries@.len() && old(self).entries@[i].0 == rune_id
                    && final(self).entries@ == old(self).entries@.remove(i).push(
                    #[trigger] old(self).entries@[i],
                ),
    {
        let found = self.find(rune_id);
        if let Some(i) = found {
            proof {
                lemma_ctx_seq_size_remove(self.entries@, i as int);
                lemma_ctx_seq_max_remove(self.entries@, i as int);
                lemma_seq_get_remove(self.entries@, i as int, rune_id);
            }
            let e = self.entries.remove(i);
            proof {
                lemma_ctx_seq_size_push(self.entries@, e);
                lemma_ctx_seq_max_push(self.entries@, e);
                lemma_seq_get_push_fresh(self.entries@, rune_id, e.1);
            }
            self.entries.push(e);
        }
    }

    /// A borrow of the cached context; only called when present.
    pub fn peek(&self, rune_id: RuneId) -> (r: &AuthorityContext)
        requires
            self.wf(),
            self.spec_cget(rune_id) is Some,
        ensures
            Some(*r) == self.spec_cget(rune_id),
            r.wf(),
    {
        let found = self.find(rune_id);
        match found {
            Some(i) => &self.entries[i].1,
            None => {
                proof {
                    assert(false);
                }
                vstd::pervasive::unreached()
            },
        }
    }

    /// Inserts a context, evicting least-recently-used entries until the
    /// cache fits its effective budget: the configured budget, raised to the
    /// incoming context's own size if that alone exceeds it.
    pub fn insert(&mut self, rune_id: RuneId, context: AuthorityContext)
        requires
            old(self).wf(),
            old(self).spec_cget(rune_id) is None,
            context.wf(),
        ensures
            final(self).wf(),
            final(self).max_bytes == old(self).max_bytes,
            final(self).spec_cget(rune_id) == Some(context),
            forall|k: RuneId, c: AuthorityContext|
                k != rune_id && final(self).spec_cget(k) == Some(c) ==> old(self).spec_cget(k)
                    == Some(c),
            exists|m: int|
                0 <= m <= old(self).entries@.len() && final(self).entries@ == (
                #[trigger] old(self).entries@.skip(m)).push((rune_id, context)),
    {
        let size = context.size_bytes();
        let effective: u128 = if (self.max_bytes as u128) > size {
            self.max_bytes as u128
        } else {
            size
        };
        proof {
            lemma_ctx_seq_max_bound(self.entries@);
            assert(self.entries@ =~= old(self).entries@.skip(0));
        }
        while self.current_bytes + size > effective && self.entries.len() > 0
            invariant
                self.wf(),
                self.max_bytes == old(self).max_bytes,
                self.current_bytes < 0x200000000000000000000,
                size < 0x100000000000000000000,
                size == context.spec_size(),
                exists|m: int|
                    0 <= m <= old(self).entries@.len() && self.entries@ == #[trigger] old(
                        self,
                    ).entries@.skip(m),
                effective == if (self.max_bytes as u128) > size {
                    self.max_bytes as u128
                } else {
                    size
                },
                self.spec_cget(rune_id) is None,
                forall|k: RuneId, c: AuthorityContext|
                    #![all_triggers]
                    self.spec_cget(k) == Some(c) ==> old(self).spec_cget(k) == Some(c),
            decreases self.entries@.len(),
        {
            proof {
                lemma_ctx_seq_max_bound(self.entries@);
            }
            let evicted_size = self.entries[0].1.size_bytes();
            proof {
                lemma_ctx_seq_size_remove(self.entries@, 0);
                lemma_ctx_seq_max_remove(self.entries@, 0);
                lemma_seq_get_remove(self.entries@, 0, self.entries@[0].0);
                lemma_seq_get_by_index(self.entries@, 0);
                let m0 = choose|m: int|
                    0 <= m <= old(self).entries@.len() && self.entries@ == #[trigger] old(
                        self,
                    ).entries@.skip(m);
                assert(self.entries@.remove(0) =~= old(self).entries@.skip(m0 + 1));
            }
            let _ = self.entries.remove(0);
            self.current_bytes = self.current_bytes - evicted_size;
        }
        proof {
            lemma_ctx_seq_size_push(self.entries@, (rune_id, context));
            lemma_ctx_seq_max_push(self.entries@, (rune_id, context));
            lemma_seq_get_none_absent(self.entries@, rune_id);
            lemma_seq_get_push_fresh(self.entries@, rune_id, context);
            if self.entries@.len() == 0 {
                assert(ctx_seq_size(self.entries@) == 0);
            }
        }
        self.entries.push((rune_id, context));
        self.current_bytes = self.current_bytes + size;
    }
}

} // verus!
