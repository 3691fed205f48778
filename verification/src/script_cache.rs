//! The prevout scriptPubKey cache, and the node's answers it caches.
//!
//! Within one block every answer of the node is final, so the embedding
//! program collects the prevout scripts and commit heights the block's
//! transactions may ask about into a `NodeView` before processing starts.
use vstd::prelude::*;

use crate::bytes::clone_bytes;
use crate::tx::OutPoint;

verus! {

/// The script stored under an outpoint key, later entries winning.
pub open spec fn sc_seq_get(s: Seq<(OutPoint, Vec<u8>)>, key: (Seq<u8>, u32)) -> Option<Seq<u8>>
    decreases s.len(),
{
    if s.len() == 0 {
        None
    } else if s.last().0.key() == key {
        Some(s.last().1@)
    } else {
        sc_seq_get(s.drop_last(), key)
    }
}

/// No two entries share an outpoint.
pub open spec fn sc_dup_free(s: Seq<(OutPoint, Vec<u8>)>) -> bool {
    forall|i: int, j: int| 0 <= i < j < s.len() ==> s[i].0.key() != s[j].0.key()
}

/// Bytes the cache accounts for a list of entries: script length plus a
/// fixed overhead each.
pub open spec fn sc_seq_size(s: Seq<(OutPoint, Vec<u8>)>) -> nat
    decreases s.len(),
{
    if s.len() == 0 {
        0
    } else {
        s.first().1@.len() + 64 + sc_seq_size(s.drop_first())
    }
}

pub proof fn lemma_sc_get_absent(s: Seq<(OutPoint, Vec<u8>)>, key: (Seq<u8>, u32))
    requires
        forall|i: int| 0 <= i < s.len() ==> s[i].0.key() != key,
    ensures
        sc_seq_get(s, key) is None,
    decreases s.len(),
{
    if s.len() > 0 {
        lemma_sc_get_absent(s.drop_last(), key);
    }
}

pub proof fn lemma_sc_get_none_absent(s: Seq<(OutPoint, Vec<u8>)>, key: (Seq<u8>, u32))
    requires
        sc_seq_get(s, key) is None,
    ensures
        forall|i: int| 0 <= i < s.len() ==> s[i].0.key() != key,
    decreases s.len(),
{
    if s.len() > 0 {
        lemma_sc_get_none_absent(s.drop_last(), key);
        assert forall|i: int| 0 <= i < s.len() implies s[i].0.key() != key by {
            if i < s.len() - 1 {
                assert(s.drop_last()[i] == s[i]);
            }
        }
    }
}

pub proof fn lemma_sc_get_by_index(s: Seq<(OutPoint, Vec<u8>)>, i: int)
    requires
        0 <= i < s.len(),
        sc_dup_free(s),
    ensures
        sc_seq_get(s, s[i].0.key()) == Some(s[i].1@),
    decreases s.len(),
{
    if i == s.len() - 1 {
    } else {
        assert(s.last().0.key() != s[i].0.key());
        assert(sc_dup_free(s.drop_last()));
        lemma_sc_get_by_index(s.drop_last(), i);
    }
}

pub proof fn lemma_sc_get_remove(s: Seq<(OutPoint, Vec<u8>)>, i: int)
    requires
        0 <= i < s.len(),
        sc_dup_free(s),
    ensures
        sc_seq_get(s.remove(i), s[i].0.key()) is None,
        forall|k: (Seq<u8>, u32)|
            k != s[i].0.key() ==> sc_seq_get(s.remove(i), k) == sc_seq_get(s, k),
        sc_dup_free(s.remove(i)),
    decreases s.len(),
{
    let key = s[i].0.key();
    let t = s.remove(i);
    assert forall|i2: int, j2: int|
        0 <= i2 < j2 < t.len() implies t[i2].0.key() != t[j2].0.key() by {
        let si2 = if i2 < i {
            i2
        } else {
            i2 + 1
        };
        let sj2 = if j2 < i {
            j2
        } else {
            j2 + 1
        };
        assert(t[i2] == s[si2] && t[j2] == s[sj2]);
        assert(s[si2].0.key() != s[sj2].0.key());
    }
    if i == s.len() - 1 {
        assert(t =~= s.drop_last());
        assert forall|j: int| 0 <= j < t.len() implies t[j].0.key() != key by {
            assert(t[j] == s[j]);
            assert(s[j].0.key() != s[i].0.key());
        }
        lemma_sc_get_absent(t, key);
        assert forall|k: (Seq<u8>, u32)| k != key implies sc_seq_get(t, k) == sc_seq_get(s, k) by {
            assert(sc_seq_get(s, k) == sc_seq_get(s.drop_last(), k));
        }
    } else {
        assert(s.last().0.key() != key);
        assert(t.last() == s.last());
        assert(t.drop_last() =~= s.drop_last().remove(i));
        assert(sc_dup_free(s.drop_last()));
        lemma_sc_get_remove(s.drop_last(), i);
        assert(sc_seq_get(t, key) == sc_seq_get(t.drop_last(), key));
        assert forall|k: (Seq<u8>, u32)| k != key implies sc_seq_get(t, k) == sc_seq_get(s, k) by {
            if t.last().0.key() != k {
                assert(sc_seq_get(t, k) == sc_seq_get(t.drop_last(), k));
                assert(sc_seq_get(s, k) == sc_seq_get(s.drop_last(), k));
            }
        }
    }
}

pub proof fn lemma_sc_get_push_fresh(s: Seq<(OutPoint, Vec<u8>)>, e: (OutPoint, Vec<u8>))
    requires
        forall|i: int| 0 <= i < s.len() ==> s[i].0.key() != e.0.key(),
        sc_dup_free(s),
    ensures
        sc_seq_get(s.push(e), e.0.key()) == Some(e.1@),
        forall|k: (Seq<u8>, u32)| k != e.0.key() ==> sc_seq_get(s.push(e), k) == sc_seq_get(s, k),
        sc_dup_free(s.push(e)),
    decreases s.len(),
{
    let t = s.push(e);
    assert(t.drop_last() =~= s);
}

pub proof fn lemma_sc_size_remove(s: Seq<(OutPoint, Vec<u8>)>, i: int)
    requires
        0 <= i < s.len(),
    ensures
        sc_seq_size(s) == sc_seq_size(s.remove(i)) + s[i].1@.len() + 64,
    decreases s.len(),
{
    if i == 0 {
        assert(s.remove(0) =~= s.drop_first());
    } else {
        assert(s.remove(i).first() == s.first());
        assert(s.remove(i).drop_first() =~= s.drop_first().remove(i - 1));
        lemma_sc_size_remove(s.drop_first(), i - 1);
    }
}

pub proof fn lemma_sc_size_push(s: Seq<(OutPoint, Vec<u8>)>, e: (OutPoint, Vec<u8>))
    ensures
        sc_seq_size(s.push(e)) == sc_seq_size(s) + e.1@.len() + 64,
    decreases s.len(),
{
    if s.len() == 0 {
        assert(s.push(e).first() == e);
        assert(s.push(e).drop_first() =~= Seq::empty());
        assert(sc_seq_size(s.push(e).drop_first()) == 0);
    } else {
        assert(s.push(e).first() == s.first());
        assert(s.push(e).drop_first() =~= s.drop_first().push(e));
        lemma_sc_size_push(s.drop_first(), e);
    }
}

/// Stored u32 value under a txid key, later entries winning.
pub open spec fn h_seq_get(s: Seq<(Vec<u8>, u32)>, key: Seq<u8>) -> Option<u32>
    decreases s.len(),
{
    if s.len() == 0 {
        None
    } else if s.last().0@ == key {
        Some(s.last().1)
    } else {
        h_seq_get(s.drop_last(), key)
    }
}

/// The node's answers for one block: prevout scriptPubKeys by outpoint, and
/// confirmation heights by txid. Collected once; every lookup is final.
#[derive(Debug)]
pub struct NodeView {
    pub scripts: Vec<(OutPoint, Vec<u8>)>,
    pub heights: Vec<(Vec<u8>, u32)>,
}

impl NodeView {
    /// The scriptPubKey of the given outpoint, or `None` when the node does
    /// not know the transaction or the output index is out of range.
    pub open spec fn spec_script(self, key: (Seq<u8>, u32)) -> Option<Seq<u8>> {
        sc_seq_get(self.scripts@, key)
    }

    /// The height of the block holding the given transaction, if confirmed.
    pub open spec fn spec_height(self, txid: Seq<u8>) -> Option<u32> {
        h_seq_get(self.heights@, txid)
    }

    pub fn script_at(&self, txid: &Vec<u8>, vout: u32) -> (r: Option<&Vec<u8>>)
        ensures
            match r {
                Some(v) => self.spec_script((txid@, vout)) == Some(v@),
                None => self.spec_script((txid@, vout)) is None,
            },
    {
        let n = self.scripts.len();
        proof {
            assert(self.scripts@.subrange(0, n as int) =~= self.scripts@);
        }
        let mut i: usize = n;
        while i > 0
            invariant
                i <= n,
                n == self.scripts@.len(),
                sc_seq_get(self.scripts@, (txid@, vout)) == sc_seq_get(
                    self.scripts@.subrange(0, i as int),
                    (txid@, vout),
                ),
            decreases i,
        {
            i = i - 1;
            let e = &self.scripts[i];
            proof {
                assert(self.scripts@.subrange(0, i + 1).last() == self.scripts@[i as int]);
                assert(self.scripts@.subrange(0, i + 1).drop_last() =~= self.scripts@.subrange(
                    0,
                    i as int,
                ));
            }
            if e.0.vout == vout && crate::bytes::bytes_eq(&e.0.txid, txid) {
                return Some(&e.1);
            }
        }
        None
    }

    pub fn height_of(&self, txid: &Vec<u8>) -> (r: Option<u32>)
        ensures
            r == self.spec_height(txid@),
    {
        let n = self.heights.len();
        proof {
            assert(self.heights@.subrange(0, n as int) =~= self.heights@);
        }
        let mut i: usize = n;
        while i > 0
            invariant
                i <= n,
                n == self.heights@.len(),
                h_seq_get(self.heights@, txid@) == h_seq_get(
                    self.heights@.subrange(0, i as int),
                    txid@,
                ),
            decreases i,
        {
            i = i - 1;
            let e = &self.heights[i];
            proof {
                assert(self.heights@.subrange(0, i + 1).last() == self.heights@[i as int]);
                assert(self.heights@.subrange(0, i + 1).drop_last() =~= self.heights@.subrange(
                    0,
                    i as int,
                ));
            }
            if crate::bytes::bytes_eq(&e.0, txid) {
                return Some(e.1);
            }
        }
        None
    }
}

/// Cache hit and miss counters; observability only.
#[derive(Debug, Clone, Copy, PartialEq, Eq, Structural)]
pub struct ScriptCacheStats {
    pub hits: u64,
    pub misses: u64,
}

/// Bounded LRU cache of prevout scriptPubKeys keyed by outpoint. Most
/// recently used entries sit at the end; eviction removes from the front
/// until the byte budget is met. An entry that alone exceeds the budget is
/// not kept.
#[derive(Debug)]
pub struct ScriptCache {
    pub entries: Vec<(OutPoint, Vec<u8>)>,
    pub max_bytes: usize,
    pub current_bytes: u128,
    pub stats_hits: u64,
    pub stats_misses: u64,
}

impl ScriptCache {
    /// Keys unique, the byte counter exact and within the budget.
    pub open spec fn wf(self) -> bool {
        &&& sc_dup_free(self.entries@)
        &&& self.current_bytes == sc_seq_size(self.entries@)
        &&& self.current_bytes <= self.max_bytes
    }

    pub open spec fn spec_cget(self, key: (Seq<u8>, u32)) -> Option<Seq<u8>> {
        sc_seq_get(self.entries@, key)
    }

    /// Everything cached agrees with the node's answers.
    pub open spec fn coherent(self, node: NodeView) -> bool {
        forall|k: (Seq<u8>, u32)|
            (#[trigger] self.spec_cget(k)) is Some ==> node.spec_script(k) == self.spec_cget(k)
    }

    pub fn new(max_bytes: usize) -> (r: Self)
        ensures
            r.wf(),
            r.max_bytes == max_bytes,
            forall|k: (Seq<u8>, u32)| r.spec_cget(k) is None,
    {
        let r = ScriptCache {
            entries: Vec::new(),
            max_bytes,
            current_bytes: 0,
            stats_hits: 0,
            stats_misses: 0,
        };
        proof {
            assert forall|k: (Seq<u8>, u32)| r.spec_cget(k) is None by {
                lemma_sc_get_absent(r.entries@, k);
            }
        }
        r
    }

    pub fn stats(&self) -> (r: ScriptCacheStats)
        ensures
            r.hits == self.stats_hits,
            r.misses == self.stats_misses,
    {
        ScriptCacheStats { hits: self.stats_hits, misses: self.stats_misses }
    }

    /// Bytes one cached script accounts for.
    pub fn entry_size(script: &Vec<u8>) -> (r: u128)
        ensures
            r == script@.len() + 64,
    {
        (script.len() as u128) + 64
    }

    /// Looks the outpoint up and, on a hit, promotes it to most recently
    /// used and hands back a copy of the script; the other entries keep
    /// their relative recency order. A miss changes nothing.
    fn get(&mut self, txid: &Vec<u8>, vout: u32) -> (r: Option<Vec<u8>>)
        requires
            old(self).wf(),
        ensures
            final(self).wf(),
            final(self).max_bytes == old(self).max_bytes,
            forall|k: (Seq<u8>, u32)| final(self).spec_cget(k) == old(self).spec_cget(k),
            match r {
                Some(v) => old(self).spec_cget((txid@, vout)) == Some(v@),
                None => old(self).spec_cget((txid@, vout)) is None,
            },
            r is None ==> final(self).entries@ == old(self).entries@,
            r is Some ==> exists|i: int|
                0 <= i < old(self).entries@.len() && old(self).entries@[i].0.key() == (
                    txid@,
                    vout,
                ) && final(self).entries@ == old(self).entries@.remove(i).push(
                    #[trigger] old(self).entries@[i],
                ),
    {
        let n = self.entries.len();
        let mut i: usize = 0;
        while i < n
            invariant
                i <= n,
                n == self.entries@.len(),
                *self == *old(self),
                old(self).wf(),
                forall|j: int| 0 <= j < i ==> self.entries@[j].0.key() != (txid@, vout),
            decreases n - i,
        {
            let hit = {
                let e = &self.entries[i];
                e.0.vout == vout && crate::bytes::bytes_eq(&e.0.txid, txid)
            };
            if hit {
                proof {
                    lemma_sc_get_by_index(self.entries@, i as int);
                    lemma_sc_get_remove(self.entries@, i as int);
                    lemma_sc_size_remove(self.entries@, i as int);
                }
                let e = self.entries.remove(i);
                let out = clone_bytes(&e.1);
                proof {
                    lemma_sc_get_push_fresh(self.entries@, e);
                    lemma_sc_size_push(self.entries@, e);
                }
                self.entries.push(e);
                proof {
                    assert forall|k: (Seq<u8>, u32)| final(self).spec_cget(k) == old(
                        self,
                    ).spec_cget(k) by {}
                }
                return Some(out);
            }
            i = i + 1;
        }
        proof {
            lemma_sc_get_absent(self.entries@, (txid@, vout));
        }
        None
    }

    /// Caches a script under an outpoint not yet present, evicting from the
    /// least recently used end until the budget holds.
    fn put(&mut self, key: OutPoint, value: Vec<u8>)
        requires
            old(self).wf(),
            old(self).spec_cget(key.key()) is None,
        ensures
            final(self).wf(),
            final(self).max_bytes == old(self).max_bytes,
            forall|k: (Seq<u8>, u32), v: Seq<u8>|
                final(self).spec_cget(k) == Some(v) ==> ((k == key.key() && v == value@) || old(
                    self,
                ).spec_cget(k) == Some(v)),
            exists|m: int|
                0 <= m <= old(self).entries@.len() && (final(self).entries@ == (
                #[trigger] old(self).entries@.skip(m)).push((key, value)) || final(self).entries@
                    == old(self).entries@.skip(m)),
    {
        let size = Self::entry_size(&value);
        let value_len = value.len();
        proof {
            assert(size == value_len + 64);
        }
        proof {
            assert(self.entries@ =~= old(self).entries@.skip(0));
        }
        while self.current_bytes + size > (self.max_bytes as u128) && self.entries.len() > 0
            invariant
                self.wf(),
                self.max_bytes == old(self).max_bytes,
                size == value@.len() + 64,
                size <= 0x10000000000000040,
                self.spec_cget(key.key()) is None,
                forall|k: (Seq<u8>, u32), v: Seq<u8>|
                    #![all_triggers]
                    self.spec_cget(k) == Some(v) ==> old(self).spec_cget(k) == Some(v),
                exists|m: int|
                    0 <= m <= old(self).entries@.len() && self.entries@ == #[trigger] old(
                        self,
                    ).entries@.skip(m),
            decreases self.entries@.len(),
        {
            let evicted_size = Self::entry_size(&self.entries[0].1);
            proof {
                lemma_sc_size_remove(self.entries@, 0);
                lemma_sc_get_remove(self.entries@, 0);
                lemma_sc_get_by_index(self.entries@, 0);
                let m0 = choose|m: int|
                    0 <= m <= old(self).entries@.len() && self.entries@ == #[trigger] old(
                        self,
                    ).entries@.skip(m);
                assert(self.entries@.remove(0) =~= old(self).entries@.skip(m0 + 1));
            }
            let _ = self.entries.remove(0);
            self.current_bytes = self.current_bytes - evicted_size;
        }
        if self.current_bytes + size <= (self.max_bytes as u128) {
            proof {
                lemma_sc_get_none_absent(self.entries@, key.key());
                lemma_sc_get_push_fresh(self.entries@, (key, value));
                lemma_sc_size_push(self.entries@, (key, value));
            }
            self.entries.push((key, value));
            self.current_bytes = self.current_bytes + size;
        }
    }

    /// The scriptPubKey of the given prevout, from the cache or from the
    /// node's answers; a fresh answer is cached.
    pub fn get_script_pubkey(&mut self, node: &NodeView, txid: &Vec<u8>, vout: u32) -> (r: Option<
        Vec<u8>,
    >)
        requires
            old(self).wf(),
            old(self).coherent(*node),
        ensures
            final(self).wf(),
            final(self).max_bytes == old(self).max_bytes,
            final(self).coherent(*node),
            match r {
                Some(v) => node.spec_script((txid@, vout)) == Some(v@),
                None => node.spec_script((txid@, vout)) is None,
            },
    {
        let cached = self.get(txid, vout);
        if let Some(script) = cached {
            self.stats_hits = self.stats_hits.wrapping_add(1);
            proof {
                assert(old(self).spec_cget((txid@, vout)) == Some(script@));
                assert forall|k: (Seq<u8>, u32)| (#[trigger] self.spec_cget(k)) is Some
                    implies node.spec_script(k) == self.spec_cget(k) by {
                    assert(self.spec_cget(k) == old(self).spec_cget(k));
                }
                assert(self.coherent(*node));
            }
            return Some(script);
        }
        self.stats_misses = self.stats_misses.wrapping_add(1);
        let fetched = node.script_at(txid, vout);
        match fetched {
            Some(script) => {
                let ghost script_view = script@;
                let stored = clone_bytes(script);
                let out = clone_bytes(script);
                let key = OutPoint { txid: clone_bytes(txid), vout };
                let ghost mid = *self;
                self.put(key, stored);
                proof {
                    assert forall|k: (Seq<u8>, u32)| (#[trigger] self.spec_cget(k)) is Some
                        implies node.spec_script(k) == self.spec_cget(k) by {
                        let v = self.spec_cget(k).unwrap();
                        if k == (txid@, vout) && v == script_view {
                            assert(node.spec_script(k) == Some(script_view));
                        } else {
                            assert(mid.spec_cget(k) == Some(v));
                            assert(old(self).spec_cget(k) == Some(v));
                        }
                    }
                    assert(self.coherent(*node));
                }
                Some(out)
            },
            None => {
                proof {
                    assert forall|k: (Seq<u8>, u32)| (#[trigger] self.spec_cget(k)) is Some
                        implies node.spec_script(k) == self.spec_cget(k) by {
                        assert(self.spec_cget(k) == old(self).spec_cget(k));
                    }
                    assert(self.coherent(*node));
                }
                None
            },
        }
    }
}

} // verus!
