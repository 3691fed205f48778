//! In-memory association tables standing for the transactional key/value
//! store's tables. All mutations of a block happen on these values; the
//! embedding program persists them atomically afterwards.
use vstd::prelude::*;

use crate::RuneId;
use crate::bytes::bytes_eq;
use crate::tx::OutPoint;

verus! {

/// No two entries share a key.
pub open spec fn dup_free<V>(s: Seq<(RuneId, V)>) -> bool {
    forall|i: int, j: int| 0 <= i < j < s.len() ==> s[i].0 != s[j].0
}

/// The value stored under `k`, later entries winning.
pub open spec fn seq_get<V>(s: Seq<(RuneId, V)>, k: RuneId) -> Option<V>
    decreases s.len(),
{
    if s.len() == 0 {
        None
    } else if s.last().0 == k {
        Some(s.last().1)
    } else {
        seq_get(s.drop_last(), k)
    }
}

pub proof fn lemma_seq_get_absent<V>(s: Seq<(RuneId, V)>, k: RuneId)
    requires
        forall|i: int| 0 <= i < s.len() ==> s[i].0 != k,
    ensures
        seq_get(s, k) is None,
    decreases s.len(),
{
    if s.len() > 0 {
        lemma_seq_get_absent(s.drop_last(), k);
    }
}

pub proof fn lemma_seq_get_update<V>(s: Seq<(RuneId, V)>, i: int, k: RuneId, v: V)
    requires
        0 <= i < s.len(),
        s[i].0 == k,
        dup_free(s),
    ensures
        seq_get(s.update(i, (k, v)), k) == Some(v),
        forall|k2: RuneId| k2 != k ==> seq_get(s.update(i, (k, v)), k2) == seq_get(s, k2),
        dup_free(s.update(i, (k, v))),
    decreases s.len(),
{
    let t = s.update(i, (k, v));
    assert forall|i2: int, j2: int| 0 <= i2 < j2 < t.len() implies t[i2].0 != t[j2].0 by {
        assert(s[i2].0 != s[j2].0);
        assert(t[i2].0 == s[i2].0 && t[j2].0 == s[j2].0);
    }
    if i == s.len() - 1 {
        assert(t.drop_last() =~= s.drop_last());
        assert forall|k2: RuneId| k2 != k implies seq_get(t, k2) == seq_get(s, k2) by {
            assert(seq_get(t, k2) == seq_get(t.drop_last(), k2));
            assert(seq_get(s, k2) == seq_get(s.drop_last(), k2));
        }
    } else {
        assert(s.last().0 != k);
        assert(t.last() == s.last());
        assert(t.drop_last() =~= s.drop_last().update(i, (k, v)));
        assert(dup_free(s.drop_last()));
        lemma_seq_get_update(s.drop_last(), i, k, v);
        assert(seq_get(t, k) == seq_get(t.drop_last(), k));
        assert forall|k2: RuneId| k2 != k implies seq_get(t, k2) == seq_get(s, k2) by {
            if t.last().0 != k2 {
                assert(seq_get(t, k2) == seq_get(t.drop_last(), k2));
                assert(seq_get(s, k2) == seq_get(s.drop_last(), k2));
            }
        }
    }
}

pub proof fn lemma_seq_get_remove<V>(s: Seq<(RuneId, V)>, i: int, k: RuneId)
    requires
        0 <= i < s.len(),
        s[i].0 == k,
        dup_free(s),
    ensures
        seq_get(s.remove(i), k) is None,
        forall|k2: RuneId| k2 != k ==> seq_get(s.remove(i), k2) == seq_get(s, k2),
        dup_free(s.remove(i)),
    decreases s.len(),
{
    let t = s.remove(i);
    assert forall|i2: int, j2: int| 0 <= i2 < j2 < t.len() implies t[i2].0 != t[j2].0 by {
        let si2 = if i2 < i { i2 } else { i2 + 1 };
        let sj2 = if j2 < i { j2 } else { j2 + 1 };
        assert(t[i2] == s[si2] && t[j2] == s[sj2]);
        assert(s[si2].0 != s[sj2].0);
    }
    if i == s.len() - 1 {
        assert(t =~= s.drop_last());
        assert forall|j: int| 0 <= j < t.len() implies t[j].0 != k by {
            assert(t[j] == s[j]);
            assert(s[j].0 != s[i].0);
        }
        lemma_seq_get_absent(t, k);
        assert forall|k2: RuneId| k2 != k implies seq_get(t, k2) == seq_get(s, k2) by {
            assert(seq_get(s, k2) == seq_get(s.drop_last(), k2));
        }
    } else {
        assert(s.last().0 != k);
        assert(t.last() == s.last());
        assert(t.drop_last() =~= s.drop_last().remove(i));
        assert(dup_free(s.drop_last()));
        lemma_seq_get_remove(s.drop_last(), i, k);
        assert(seq_get(t, k) == seq_get(t.drop_last(), k));
        assert forall|k2: RuneId| k2 != k implies seq_get(t, k2) == seq_get(s, k2) by {
            if t.last().0 != k2 {
                assert(seq_get(t, k2) == seq_get(t.drop_last(), k2));
                assert(seq_get(s, k2) == seq_get(s.drop_last(), k2));
            }
        }
    }
}

pub proof fn lemma_seq_get_push_fresh<V>(s: Seq<(RuneId, V)>, k: RuneId, v: V)
    requires
        forall|i: int| 0 <= i < s.len() ==> s[i].0 != k,
        dup_free(s),
    ensures
        seq_get(s.push((k, v)), k) == Some(v),
        forall|k2: RuneId| k2 != k ==> seq_get(s.push((k, v)), k2) == seq_get(s, k2),
        dup_free(s.push((k, v))),
{
    let t = s.push((k, v));
    assert(t.drop_last() =~= s);
}

pub proof fn lemma_seq_get_none_absent<V>(s: Seq<(RuneId, V)>, k: RuneId)
    requires
        seq_get(s, k) is None,
    ensures
        forall|i: int| 0 <= i < s.len() ==> s[i].0 != k,
    decreases s.len(),
{
    if s.len() > 0 {
        lemma_seq_get_none_absent(s.drop_last(), k);
        assert forall|i: int| 0 <= i < s.len() implies s[i].0 != k by {
            if i < s.len() - 1 {
                assert(s.drop_last()[i] == s[i]);
            }
        }
    }
}

/// A table keyed by `RuneId`.
pub struct RuneTable<V> {
    pub entries: Vec<(RuneId, V)>,
}

impl<V> RuneTable<V> {
    pub open spec fn wf(self) -> bool {
        dup_free(self.entries@)
    }

    pub open spec fn spec_get(self, k: RuneId) -> Option<V> {
        seq_get(self.entries@, k)
    }

    pub fn new() -> (r: Self)
        ensures
            r.wf(),
            forall|k: RuneId| r.spec_get(k) is None,
    {
        let r = RuneTable { entries: Vec::new() };
        proof {
            assert forall|k: RuneId| r.spec_get(k) is None by {
                lemma_seq_get_absent(r.entries@, k);
            }
        }
        r
    }

    pub fn get(&self, k: RuneId) -> (r: Option<&V>)
        ensures
            match r {
                Some(v) => self.spec_get(k) == Some(*v),
                None => self.spec_get(k) is None,
            },
    {
        let n = self.entries.len();
        proof {
            assert(self.entries@.subrange(0, n as int) =~= self.entries@);
        }
        let mut i: usize = n;
        while i > 0
            invariant
                i <= n,
                n == self.entries@.len(),
                seq_get(self.entries@, k) == seq_get(self.entries@.subrange(0, i as int), k),
            decreases i,
        {
            i = i - 1;
            let e = &self.entries[i];
            proof {
                assert(self.entries@.subrange(0, i + 1).last() == self.entries@[i as int]);
                assert(self.entries@.subrange(0, i + 1).drop_last() =~= self.entries@.subrange(
                    0,
                    i as int,
                ));
            }
            if e.0.block == k.block && e.0.tx == k.tx {
                return Some(&e.1);
            }
        }
        proof {
            assert(seq_get(self.entries@.subrange(0, 0), k) is None);
        }
        None
    }

    pub fn insert(&mut self, k: RuneId, v: V)
        requires
            old(self).wf(),
        ensures
            final(self).wf(),
            final(self).spec_get(k) == Some(v),
            forall|k2: RuneId| k2 != k ==> final(self).spec_get(k2) == old(self).spec_get(k2),
    {
        let n = self.entries.len();
        let mut i: usize = 0;
        while i < n
            invariant
                i <= n,
                n == self.entries@.len(),
                self.entries@ == old(self).entries@,
                dup_free(self.entries@),
                forall|j: int| 0 <= j < i ==> self.entries@[j].0 != k,
            decreases n - i,
        {
            let hit = {
                let e = &self.entries[i];
                e.0.block == k.block && e.0.tx == k.tx
            };
            if hit {
                proof {
                    lemma_seq_get_update(self.entries@, i as int, k, v);
                }
                self.entries.set(i, (k, v));
                return;
            }
            i = i + 1;
        }
        proof {
            lemma_seq_get_push_fresh(self.entries@, k, v);
        }
        self.entries.push((k, v));
    }

    pub fn take_out(&mut self, k: RuneId) -> (r: Option<V>)
        requires
            old(self).wf(),
        ensures
            final(self).wf(),
            final(self).spec_get(k) is None,
            forall|k2: RuneId| k2 != k ==> final(self).spec_get(k2) == old(self).spec_get(k2),
            r == old(self).spec_get(k),
    {
        let n = self.entries.len();
        let mut i: usize = 0;
        while i < n
            invariant
                i <= n,
                n == self.entries@.len(),
                self.entries@ == old(self).entries@,
                dup_free(self.entries@),
                forall|j: int| 0 <= j < i ==> self.entries@[j].0 != k,
            decreases n - i,
        {
            let hit = {
                let e = &self.entries[i];
                e.0.block == k.block && e.0.tx == k.tx
            };
            if hit {
                proof {
                    lemma_seq_get_remove(self.entries@, i as int, k);
                    lemma_seq_get_by_index(self.entries@, i as int);
                }
                let e = self.entries.remove(i);
                return Some(e.1);
            }
            i = i + 1;
        }
        proof {
            lemma_seq_get_absent(self.entries@, k);
        }
        None
    }
}

/// With no duplicate keys, the entry at any index is what lookup yields.
pub proof fn lemma_seq_get_by_index<V>(s: Seq<(RuneId, V)>, i: int)
    requires
        0 <= i < s.len(),
        dup_free(s),
    ensures
        seq_get(s, s[i].0) == Some(s[i].1),
    decreases s.len(),
{
    if i == s.len() - 1 {
    } else {
        assert(s.last().0 != s[i].0);
        assert(dup_free(s.drop_last()));
        lemma_seq_get_by_index(s.drop_last(), i);
    }
}

/// The view of a list of stored entries as byte sequences.
pub open spec fn list_view(l: Seq<Vec<u8>>) -> Seq<Seq<u8>> {
    l.map_values(|v: Vec<u8>| v@)
}

impl RuneTable<Vec<Vec<u8>>> {
    /// The multimap contents under `k`, as byte sequences.
    pub open spec fn spec_multi(self, k: RuneId) -> Seq<Seq<u8>> {
        match self.spec_get(k) {
            Some(l) => list_view(l@),
            None => Seq::empty(),
        }
    }

    /// Adds `e` to the set stored under `k`; a present value is not duplicated.
    pub fn multi_insert(&mut self, k: RuneId, e: Vec<u8>)
        requires
            old(self).wf(),
        ensures
            final(self).wf(),
            final(self).spec_multi(k) == if old(self).spec_multi(k).contains(e@) {
                old(self).spec_multi(k)
            } else {
                old(self).spec_multi(k).push(e@)
            },
            forall|k2: RuneId| k2 != k ==> final(self).spec_get(k2) == old(self).spec_get(k2),
    {
        let ghost before = self.spec_multi(k);
        let mut l: Vec<Vec<u8>> = match self.take_out(k) {
            Some(l) => l,
            None => Vec::new(),
        };
        proof {
            assert(list_view(l@) =~= before);
        }
        let n = l.len();
        let mut i: usize = 0;
        let mut found = false;
        while i < n
            invariant
                i <= n,
                n == l@.len(),
                list_view(l@) =~= before,
                found == exists|j: int| 0 <= j < i && l@[j]@ == e@,
                self.wf(),
                self.spec_get(k) is None,
                forall|k2: RuneId| k2 != k ==> self.spec_get(k2) == old(self).spec_get(k2),
            decreases n - i,
        {
            if bytes_eq(&l[i], &e) {
                found = true;
                proof {
                    assert(l@[i as int]@ == e@);
                }
            }
            i = i + 1;
        }
        proof {
            assert(found == before.contains(e@)) by {
                if found {
                    let j = choose|j: int| 0 <= j < n && l@[j]@ == e@;
                    assert(before[j] == e@);
                } else {
                    if before.contains(e@) {
                        let j = choose|j: int| 0 <= j < before.len() && before[j] == e@;
                        assert(l@[j]@ == e@);
                    }
                }
            }
        }
        if !found {
            l.push(e);
            proof {
                assert(list_view(l@) =~= before.push(e@));
            }
        }
        self.insert(k, l);
    }

    /// Removes the first stored value equal to `e` from the set under `k`.
    pub fn multi_remove(&mut self, k: RuneId, e: &Vec<u8>)
        requires
            old(self).wf(),
        ensures
            final(self).wf(),
            final(self).spec_multi(k) == old(self).spec_multi(k).remove_value(e@),
            forall|k2: RuneId| k2 != k ==> final(self).spec_get(k2) == old(self).spec_get(k2),
    {
        let ghost before = self.spec_multi(k);
        let mut l: Vec<Vec<u8>> = match self.take_out(k) {
            Some(l) => l,
            None => Vec::new(),
        };
        proof {
            assert(list_view(l@) =~= before);
        }
        let n = l.len();
        let mut i: usize = 0;
        while i < n
            invariant
                i <= n,
                n == l@.len(),
                list_view(l@) =~= before,
                forall|j: int| 0 <= j < i ==> l@[j]@ != e@,
                before == old(self).spec_multi(k),
                self.wf(),
                self.spec_get(k) is None,
                forall|k2: RuneId| k2 != k ==> self.spec_get(k2) == old(self).spec_get(k2),
            decreases n - i,
        {
            if bytes_eq(&l[i], e) {
                proof {
                    assert(before.index_of_first(e@) == Some(i as int)) by {
                        assert(before[i as int] == e@);
                        before.index_of_first_ensures(e@);
                        if before.index_of_first(e@) != Some(i as int) {
                            let f = before.index_of_first(e@).unwrap();
                            assert(before[f] == e@);
                        }
                    };
                    assert(list_view(l@.remove(i as int)) =~= before.remove(i as int));
                    assert(before.remove_value(e@) == before.remove(i as int));
                }
                l.remove(i);
                self.insert(k, l);
                return;
            }
            i = i + 1;
        }
        proof {
            assert(before.index_of_first(e@) is None) by {
                before.index_of_first_ensures(e@);
                if before.index_of_first(e@) is Some {
                    let f = before.index_of_first(e@).unwrap();
                    assert(l@[f]@ == e@);
                }
            };
            assert(before.remove_value(e@) == before);
        }
        self.insert(k, l);
    }
}


// ---- outpoint-keyed balance table ----

/// The row stored under an outpoint key, later entries winning.
pub open spec fn op_seq_get<V>(s: Seq<(OutPoint, V)>, key: (Seq<u8>, u32)) -> Option<V>
    decreases s.len(),
{
    if s.len() == 0 {
        None
    } else if s.last().0.key() == key {
        Some(s.last().1)
    } else {
        op_seq_get(s.drop_last(), key)
    }
}

/// No two entries share an outpoint.
pub open spec fn op_dup_free<V>(s: Seq<(OutPoint, V)>) -> bool {
    forall|i: int, j: int| 0 <= i < j < s.len() ==> s[i].0.key() != s[j].0.key()
}

pub proof fn lemma_op_get_absent<V>(s: Seq<(OutPoint, V)>, key: (Seq<u8>, u32))
    requires
        forall|i: int| 0 <= i < s.len() ==> s[i].0.key() != key,
    ensures
        op_seq_get(s, key) is None,
    decreases s.len(),
{
    if s.len() > 0 {
        lemma_op_get_absent(s.drop_last(), key);
    }
}

pub proof fn lemma_op_get_remove<V>(s: Seq<(OutPoint, V)>, i: int)
    requires
        0 <= i < s.len(),
        op_dup_free(s),
    ensures
        op_seq_get(s.remove(i), s[i].0.key()) is None,
        forall|k: (Seq<u8>, u32)|
            k != s[i].0.key() ==> op_seq_get(s.remove(i), k) == op_seq_get(s, k),
        op_dup_free(s.remove(i)),
    decreases s.len(),
{
    let key = s[i].0.key();
    let t = s.remove(i);
    assert forall|i2: int, j2: int|
        0 <= i2 < j2 < t.len() implies t[i2].0.key() != t[j2].0.key() by {
        let si2 = if i2 < i {
            i2
        } else {
            i2 + 1
        };
        let sj2 = if j2 < i {
            j2
        } else {
            j2 + 1
        };
        assert(t[i2] == s[si2] && t[j2] == s[sj2]);
        assert(s[si2].0.key() != s[sj2].0.key());
    }
    if i == s.len() - 1 {
        assert(t =~= s.drop_last());
        assert forall|j: int| 0 <= j < t.len() implies t[j].0.key() != key by {
            assert(t[j] == s[j]);
            assert(s[j].0.key() != s[i].0.key());
        }
        lemma_op_get_absent(t, key);
        assert forall|k: (Seq<u8>, u32)| k != key implies op_seq_get(t, k) == op_seq_get(s, k) by {
            assert(op_seq_get(s, k) == op_seq_get(s.drop_last(), k));
        }
    } else {
        assert(s.last().0.key() != key);
        assert(t.last() == s.last());
        assert(t.drop_last() =~= s.drop_last().remove(i));
        assert(op_dup_free(s.drop_last()));
        lemma_op_get_remove(s.drop_last(), i);
        assert(op_seq_get(t, key) == op_seq_get(t.drop_last(), key));
        assert forall|k: (Seq<u8>, u32)| k != key implies op_seq_get(t, k) == op_seq_get(s, k) by {
            if t.last().0.key() != k {
                assert(op_seq_get(t, k) == op_seq_get(t.drop_last(), k));
                assert(op_seq_get(s, k) == op_seq_get(s.drop_last(), k));
            }
        }
    }
}

pub proof fn lemma_op_get_push_fresh<V>(s: Seq<(OutPoint, V)>, e: (OutPoint, V))
    requires
        forall|i: int| 0 <= i < s.len() ==> s[i].0.key() != e.0.key(),
        op_dup_free(s),
    ensures
        op_seq_get(s.push(e), e.0.key()) == Some(e.1),
        forall|k: (Seq<u8>, u32)| k != e.0.key() ==> op_seq_get(s.push(e), k) == op_seq_get(s, k),
        op_dup_free(s.push(e)),
{
    let t = s.push(e);
    assert(t.drop_last() =~= s);
}

pub proof fn lemma_op_get_by_index<V>(s: Seq<(OutPoint, V)>, i: int)
    requires
        0 <= i < s.len(),
        op_dup_free(s),
    ensures
        op_seq_get(s, s[i].0.key()) == Some(s[i].1),
    decreases s.len(),
{
    if i == s.len() - 1 {
    } else {
        assert(s.last().0.key() != s[i].0.key());
        assert(op_dup_free(s.drop_last()));
        lemma_op_get_by_index(s.drop_last(), i);
    }
}

/// The amount a balance row carries for `id`.
pub open spec fn row_amt(row: Seq<(RuneId, u128)>, id: RuneId) -> nat
    decreases row.len(),
{
    if row.len() == 0 {
        0
    } else {
        (if row.first().0 == id {
            row.first().1 as nat
        } else {
            0
        }) + row_amt(row.drop_first(), id)
    }
}

/// The total amount of `id` over all stored balance rows.
pub open spec fn row_sum(s: Seq<(OutPoint, Vec<(RuneId, u128)>)>, id: RuneId) -> nat
    decreases s.len(),
{
    if s.len() == 0 {
        0
    } else {
        row_amt(s.first().1@, id) + row_sum(s.drop_first(), id)
    }
}

/// The total amount of `id` held by the outpoint table.
pub open spec fn table_sum(t: OutPointTable, id: RuneId) -> nat {
    row_sum(t.entries@, id)
}

pub proof fn lemma_row_sum_remove(s: Seq<(OutPoint, Vec<(RuneId, u128)>)>, i: int, id: RuneId)
    requires
        0 <= i < s.len(),
    ensures
        row_sum(s, id) == row_sum(s.remove(i), id) + row_amt(s[i].1@, id),
    decreases s.len(),
{
    if i == 0 {
        assert(s.remove(0) =~= s.drop_first());
    } else {
        assert(s.remove(i).first() == s.first());
        assert(s.remove(i).drop_first() =~= s.drop_first().remove(i - 1));
        lemma_row_sum_remove(s.drop_first(), i - 1, id);
    }
}

pub proof fn lemma_row_sum_push(
    s: Seq<(OutPoint, Vec<(RuneId, u128)>)>,
    e: (OutPoint, Vec<(RuneId, u128)>),
    id: RuneId,
)
    ensures
        row_sum(s.push(e), id) == row_sum(s, id) + row_amt(e.1@, id),
    decreases s.len(),
{
    if s.len() == 0 {
        assert(s.push(e).first() == e);
        assert(s.push(e).drop_first() =~= Seq::empty());
        assert(row_sum(s.push(e).drop_first(), id) == 0);
    } else {
        assert(s.push(e).first() == s.first());
        assert(s.push(e).drop_first() =~= s.drop_first().push(e));
        lemma_row_sum_push(s.drop_first(), e, id);
    }
}

/// The per-outpoint balance rows: each row lists (rune, amount) pairs.
pub struct OutPointTable {
    pub entries: Vec<(OutPoint, Vec<(RuneId, u128)>)>,
}

impl OutPointTable {
    pub open spec fn wf(self) -> bool {
        op_dup_free(self.entries@)
    }

    /// The row under the given outpoint, as a sequence of (rune, amount)
    /// pairs.
    pub open spec fn spec_row(self, key: (Seq<u8>, u32)) -> Option<Seq<(RuneId, u128)>> {
        match op_seq_get(self.entries@, key) {
            Some(v) => Some(v@),
            None => None,
        }
    }

    pub fn new() -> (r: Self)
        ensures
            r.wf(),
            forall|k: (Seq<u8>, u32)| r.spec_row(k) is None,
    {
        let r = OutPointTable { entries: Vec::new() };
        proof {
            assert forall|k: (Seq<u8>, u32)| r.spec_row(k) is None by {
                lemma_op_get_absent(r.entries@, k);
            }
        }
        r
    }

    /// Removes and returns the row under the given outpoint.
    pub fn take_out(&mut self, txid: &Vec<u8>, vout: u32) -> (r: Option<Vec<(RuneId, u128)>>)
        requires
            old(self).wf(),
        ensures
            final(self).wf(),
            final(self).spec_row((txid@, vout)) is None,
            forall|k: (Seq<u8>, u32)|
                k != (txid@, vout) ==> final(self).spec_row(k) == old(self).spec_row(k),
            match r {
                Some(v) => old(self).spec_row((txid@, vout)) == Some(v@),
                None => old(self).spec_row((txid@, vout)) is None,
            },
            forall|id: crate::RuneId|
                row_sum(old(self).entries@, id) == row_sum(final(self).entries@, id) + (match r {
                    Some(v) => row_amt(v@, id),
                    None => 0,
                }),
    {
        let n = self.entries.len();
        let mut i: usize = 0;
        while i < n
            invariant
                i <= n,
                n == self.entries@.len(),
                self.entries@ == old(self).entries@,
                op_dup_free(self.entries@),
                forall|j: int| 0 <= j < i ==> self.entries@[j].0.key() != (txid@, vout),
            decreases n - i,
        {
            let hit = {
                let e = &self.entries[i];
                e.0.vout == vout && bytes_eq(&e.0.txid, txid)
            };
            if hit {
                proof {
                    lemma_op_get_by_index(self.entries@, i as int);
                    lemma_op_get_remove(self.entries@, i as int);
                    assert forall|id: crate::RuneId|
                        row_sum(self.entries@, id) == row_sum(
                            self.entries@.remove(i as int),
                            id,
                        ) + row_amt(self.entries@[i as int].1@, id) by {
                        lemma_row_sum_remove(self.entries@, i as int, id);
                    }
                }
                let e = self.entries.remove(i);
                return Some(e.1);
            }
            i = i + 1;
        }
        proof {
            lemma_op_get_absent(self.entries@, (txid@, vout));
        }
        None
    }

    /// Writes the row under an outpoint that has no row yet.
    pub fn insert(&mut self, key: OutPoint, row: Vec<(RuneId, u128)>)
        requires
            old(self).wf(),
            old(self).spec_row(key.key()) is None,
        ensures
            final(self).wf(),
            final(self).spec_row(key.key()) == Some(row@),
            forall|k: (Seq<u8>, u32)|
                k != key.key() ==> final(self).spec_row(k) == old(self).spec_row(k),
            forall|id: crate::RuneId|
                row_sum(final(self).entries@, id) == row_sum(old(self).entries@, id) + row_amt(
                    row@,
                    id,
                ),
    {
        proof {
            if exists|i: int|
                0 <= i < self.entries@.len() && self.entries@[i].0.key() == key.key() {
                let i = choose|i: int|
                    0 <= i < self.entries@.len() && self.entries@[i].0.key() == key.key();
                lemma_op_get_by_index(self.entries@, i);
            }
            lemma_op_get_push_fresh(self.entries@, (key, row));
            assert forall|id: crate::RuneId|
                row_sum(self.entries@.push((key, row)), id) == row_sum(self.entries@, id)
                    + row_amt(row@, id) by {
                lemma_row_sum_push(self.entries@, (key, row), id);
            }
        }
        self.entries.push((key, row));
    }
}

// ---- rune-name table ----

/// The id stored under a rune name, later entries winning.
pub open spec fn nm_seq_get(s: Seq<(u128, RuneId)>, key: u128) -> Option<RuneId>
    decreases s.len(),
{
    if s.len() == 0 {
        None
    } else if s.last().0 == key {
        Some(s.last().1)
    } else {
        nm_seq_get(s.drop_last(), key)
    }
}

pub proof fn lemma_nm_get_absent(s: Seq<(u128, RuneId)>, key: u128)
    requires
        forall|i: int| 0 <= i < s.len() ==> s[i].0 != key,
    ensures
        nm_seq_get(s, key) is None,
    decreases s.len(),
{
    if s.len() > 0 {
        lemma_nm_get_absent(s.drop_last(), key);
    }
}

/// Which rune name maps to which id; a name is assigned at most once.
pub struct NameTable {
    pub entries: Vec<(u128, RuneId)>,
}

impl NameTable {
    pub open spec fn spec_get(self, key: u128) -> Option<RuneId> {
        nm_seq_get(self.entries@, key)
    }

    pub fn new() -> (r: Self)
        ensures
            forall|k: u128| r.spec_get(k) is None,
    {
        let r = NameTable { entries: Vec::new() };
        proof {
            assert forall|k: u128| r.spec_get(k) is None by {
                lemma_nm_get_absent(r.entries@, k);
            }
        }
        r
    }

    pub fn get(&self, key: u128) -> (r: Option<RuneId>)
        ensures
            r == self.spec_get(key),
    {
        let n = self.entries.len();
        proof {
            assert(self.entries@.subrange(0, n as int) =~= self.entries@);
        }
        let mut i: usize = n;
        while i > 0
            invariant
                i <= n,
                n == self.entries@.len(),
                nm_seq_get(self.entries@, key) == nm_seq_get(
                    self.entries@.subrange(0, i as int),
                    key,
                ),
            decreases i,
        {
            i = i - 1;
            let e = &self.entries[i];
            proof {
                assert(self.entries@.subrange(0, i + 1).last() == self.entries@[i as int]);
                assert(self.entries@.subrange(0, i + 1).drop_last() =~= self.entries@.subrange(
                    0,
                    i as int,
                ));
            }
            if e.0 == key {
                return Some(e.1);
            }
        }
        None
    }

    /// Records the id a name was assigned to; later writes win.
    pub fn insert(&mut self, key: u128, id: RuneId)
        ensures
            final(self).spec_get(key) == Some(id),
            forall|k: u128| k != key ==> final(self).spec_get(k) == old(self).spec_get(k),
    {
        proof {
            let t = self.entries@.push((key, id));
            assert(t.drop_last() =~= self.entries@);
        }
        self.entries.push((key, id));
    }
}

} // verus!
