//! Per-context bloom filter that short-circuits blacklist checks.
//!
//! False positives are tolerated; false negatives are forbidden. The filter
//! is rebuilt whenever a context is loaded; mutations invalidate the context
//! instead of updating the filter in place.
use std::hash::{Hash, Hasher};
use vstd::prelude::*;

verus! {

/// Second hash seed: the 64-bit golden-ratio constant.
pub const BLOOM_SEED_B: u64 = 0x9e3779b97f4a7c15;

/// Digest of `data` under the platform's default hasher primed with `seed`.
pub uninterp spec fn default_hash(seed: u64, data: Seq<u8>) -> u64;

/// Relies on std's `DefaultHasher`: `DefaultHasher::new()` always starts
/// from the same fixed keys, so writing `seed` and then `data` yields a
/// digest that depends on the two arguments alone.
#[verifier::external_body]
fn hash_seeded(data: &Vec<u8>, seed: u64) -> (r: u64)
    ensures
        r == default_hash(seed, data@),
{
    let mut hasher = std::collections::hash_map::DefaultHasher::new();
    seed.hash(&mut hasher);
    data.hash(&mut hasher);
    hasher.finish()
}

/// The doubling walk behind the filter size: starting from `w` words of 64
/// bits, double until the filter has eight bits per entry or the word cap is
/// reached.
pub open spec fn spec_words_grow(w: nat, n: nat) -> nat
    decreases (if w * 64 < n * 8 { (n * 8 - w * 64) as nat } else { 0nat }),
{
    if 1 <= w && w * 64 < n * 8 && w < 0x4000 {
        spec_words_grow(2 * w, n)
    } else {
        w
    }
}

/// Number of 64-bit words in a filter for `n` blacklist entries: eight bits
/// per entry, rounded up to a power of two, clamped to between 64 and 2^20
/// bits.
pub open spec fn spec_bloom_words(n: nat) -> nat {
    let w = spec_words_grow(1, n);
    if w > 0x4000 {
        0x4000
    } else {
        w
    }
}

/// Number of filter bits for `n` blacklist entries.
pub open spec fn spec_bit_count(n: nat) -> nat {
    64 * spec_bloom_words(n)
}

/// Whether bit `idx` is set.
pub open spec fn spec_test_bit(bits: Seq<u64>, idx: nat) -> bool {
    idx < bits.len() * 64 && (bits[(idx / 64) as int] & (1u64 << (idx % 64) as u64)) != 0
}

/// First bit position for `data` under `mask`.
pub open spec fn spec_index_a(mask: u64, data: Seq<u8>) -> nat {
    (default_hash(0, data) & mask) as nat
}

/// Second bit position for `data` under `mask`.
pub open spec fn spec_index_b(mask: u64, data: Seq<u8>) -> nat {
    (default_hash(BLOOM_SEED_B, data) & mask) as nat
}

#[derive(Debug)]
pub struct ScriptBloom {
    pub bits: Vec<u64>,
    pub mask: u64,
}

impl ScriptBloom {
    pub open spec fn wf(self) -> bool {
        &&& self.bits@.len() >= 1
        &&& self.bits@.len() <= 0x4000
        &&& self.mask + 1 == self.bits@.len() * 64
    }

    pub open spec fn spec_bits(self) -> Seq<u64> {
        self.bits@
    }

    pub open spec fn spec_mask(self) -> u64 {
        self.mask
    }

    /// Whether the filter admits `data`.
    pub open spec fn spec_might_contain(self, data: Seq<u8>) -> bool {
        spec_test_bit(self.bits@, spec_index_a(self.mask, data)) && spec_test_bit(
            self.bits@,
            spec_index_b(self.mask, data),
        )
    }

    /// An empty filter sized to `entries` blacklist entries, or `None` when
    /// there are none.
    pub fn new(entries: usize) -> (r: Option<Self>)
        ensures
            match r {
                None => entries == 0,
                Some(b) => {
                    &&& entries > 0
                    &&& b.wf()
                    &&& b.mask + 1 == spec_bit_count(entries as nat)
                    &&& forall|j: nat| !spec_test_bit(b.spec_bits(), j)
                },
            },
    {
        if entries == 0 {
            return None;
        }
        let mut w: u64 = 1;
        while (w as u128) * 64 < (entries as u128) * 8 && w < 0x4000
            invariant
                1 <= w <= 0x8000,
                spec_words_grow(1, entries as nat) == spec_words_grow(w as nat, entries as nat),
            decreases (if (w as nat) * 64 < (entries as nat) * 8 {
                ((entries as nat) * 8 - (w as nat) * 64) as nat
            } else {
                0nat
            }),
        {
            w = w * 2;
        }
        let words_u: u64 = if w > 0x4000 {
            0x4000
        } else {
            w
        };
        proof {
            assert(words_u == spec_bloom_words(entries as nat));
        }
        let words = words_u as usize;
        let mut bits: Vec<u64> = Vec::new();
        while bits.len() < words
            invariant
                bits@.len() <= words,
                forall|i: int| 0 <= i < bits@.len() ==> bits@[i] == 0u64,
            decreases words - bits@.len(),
        {
            bits.push(0);
        }
        let b = ScriptBloom { bits, mask: words_u * 64 - 1 };
        proof {
            assert(b.bits@.len() * 64 == words_u * 64);
            assert forall|j: nat| !spec_test_bit(b.spec_bits(), j) by {
                if j < b.bits@.len() * 64 {
                    assert(b.bits@[(j / 64) as int] == 0u64);
                    assert(0u64 & (1u64 << ((j % 64) as u64)) == 0) by (bit_vector);
                }
            }
        }
        Some(b)
    }

    /// The two bit positions for `data`.
    fn indices(&self, data: &Vec<u8>) -> (r: (usize, usize))
        requires
            self.wf(),
        ensures
            r.0 == spec_index_a(self.mask, data@),
            r.1 == spec_index_b(self.mask, data@),
            r.0 < self.bits@.len() * 64,
            r.1 < self.bits@.len() * 64,
    {
        let hash_a = hash_seeded(data, 0) & self.mask;
        let hash_b = hash_seeded(data, BLOOM_SEED_B) & self.mask;
        proof {
            let m = self.mask;
            let ha = default_hash(0, data@);
            let hb = default_hash(BLOOM_SEED_B, data@);
            assert((ha & m) <= m && (hb & m) <= m) by (bit_vector);
        }
        (hash_a as usize, hash_b as usize)
    }

    proof fn lemma_bit_addr(j: nat, len: nat)
        requires
            j < len * 64,
        ensures
            j / 64 < len,
            j == 64 * (j / 64) + j % 64,
            j % 64 < 64,
    {
        vstd::arithmetic::div_mod::lemma_fundamental_div_mod(j as int, 64);
        vstd::arithmetic::div_mod::lemma_mod_bound(j as int, 64);
    }

    fn set_bit(bits: &mut Vec<u64>, idx: usize)
        requires
            idx < old(bits)@.len() * 64,
        ensures
            final(bits)@.len() == old(bits)@.len(),
            spec_test_bit(final(bits)@, idx as nat),
            forall|j: nat| j != idx ==> spec_test_bit(final(bits)@, j) == spec_test_bit(
                old(bits)@,
                j,
            ),
    {
        let word = idx / 64;
        let bit = (idx % 64) as u64;
        proof {
            Self::lemma_bit_addr(idx as nat, bits@.len());
        }
        let updated = bits[word] | (1u64 << bit);
        bits.set(word, updated);
        proof {
            let w0 = old(bits)@[word as int];
            assert((w0 | (1u64 << bit)) & (1u64 << bit) != 0) by (bit_vector)
                requires
                    bit < 64u64,
            ;
            assert(spec_test_bit(bits@, idx as nat));
            assert forall|j: nat| j != idx implies spec_test_bit(bits@, j) == spec_test_bit(
                old(bits)@,
                j,
            ) by {
                if j < bits@.len() * 64 {
                    Self::lemma_bit_addr(j, bits@.len());
                    let jw = (j / 64) as int;
                    let jb = (j % 64) as u64;
                    if jw == word as int {
                        assert(jb != bit);
                        assert((w0 | (1u64 << bit)) & (1u64 << jb) == w0 & (1u64 << jb))
                            by (bit_vector)
                            requires
                                jb != bit,
                                jb < 64u64,
                                bit < 64u64,
                        ;
                    }
                }
            }
        }
    }

    fn test_bit(bits: &Vec<u64>, idx: usize) -> (r: bool)
        requires
            idx < bits@.len() * 64,
        ensures
            r == spec_test_bit(bits@, idx as nat),
    {
        let word = idx / 64;
        let bit = (idx % 64) as u64;
        proof {
            Self::lemma_bit_addr(idx as nat, bits@.len());
        }
        bits[word] & (1u64 << bit) != 0
    }

    /// Sets exactly the two bit positions for `data` and touches no other
    /// bit. Everything the filter admitted before, it still admits.
    pub fn insert(&mut self, data: &Vec<u8>)
        requires
            old(self).wf(),
        ensures
            final(self).wf(),
            final(self).mask == old(self).mask,
            final(self).bits@.len() == old(self).bits@.len(),
            final(self).spec_might_contain(data@),
            spec_test_bit(final(self).bits@, spec_index_a(old(self).mask, data@)),
            spec_test_bit(final(self).bits@, spec_index_b(old(self).mask, data@)),
            forall|j: nat|
                j != spec_index_a(old(self).mask, data@) && j != spec_index_b(
                    old(self).mask,
                    data@,
                ) ==> spec_test_bit(final(self).bits@, j) == spec_test_bit(old(self).bits@, j),
            forall|d: Seq<u8>| old(self).spec_might_contain(d) ==> final(self).spec_might_contain(
                d,
            ),
    {
        let (a, b) = self.indices(data);
        Self::set_bit(&mut self.bits, a);
        Self::set_bit(&mut self.bits, b);
    }

    /// Whether the filter admits `data`; everything inserted is admitted.
    pub fn might_contain(&self, data: &Vec<u8>) -> (r: bool)
        requires
            self.wf(),
        ensures
            r == self.spec_might_contain(data@),
    {
        let (a, b) = self.indices(data);
        Self::test_bit(&self.bits, a) && Self::test_bit(&self.bits, b)
    }

    /// Memory footprint of the bit array.
    pub fn byte_size(&self) -> (r: usize)
        requires
            self.wf(),
        ensures
            r == self.bits@.len() * 8,
    {
        self.bits.len() * 8
    }
}

} // verus!
