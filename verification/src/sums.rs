//! Per-rune balance arithmetic: amounts in tables, totals over balance rows,
//! and the lemmas that track how each operation moves them.
use vstd::prelude::*;

use crate::RuneId;
use crate::kv::{row_amt, RuneTable};


verus! {

/// The balance a rune table records for `id`, zero when absent.
pub open spec fn amt(t: RuneTable<u128>, id: RuneId) -> nat {
    match t.spec_get(id) {
        Some(v) => v as nat,
        None => 0,
    }
}

/// A row's amount for `id`, decomposed by its last element.
pub proof fn lemma_row_amt_snoc(row: Seq<(RuneId, u128)>, e: (RuneId, u128), id: RuneId)
    ensures
        row_amt(row.push(e), id) == row_amt(row, id) + (if e.0 == id {
            e.1 as nat
        } else {
            0
        }),
    decreases row.len(),
{
    if row.len() == 0 {
        assert(row.push(e).first() == e);
        assert(row.push(e).drop_first() =~= Seq::empty());
        assert(row_amt(row.push(e).drop_first(), id) == 0);
    } else {
        assert(row.push(e).first() == row.first());
        assert(row.push(e).drop_first() =~= row.drop_first().push(e));
        lemma_row_amt_snoc(row.drop_first(), e, id);
    }
}

/// Adds `amount` of rune `id` to a balance table; fails exactly on overflow,
/// leaving the table unchanged.
pub fn add_amount(t: &mut RuneTable<u128>, id: RuneId, amount: u128) -> (ok: bool)
    requires
        old(t).wf(),
    ensures
        final(t).wf(),
        ok ==> {
            &&& amt(*old(t), id) + amount <= u128::MAX
            &&& amt(*final(t), id) == amt(*old(t), id) + amount
            &&& final(t).spec_get(id) == Some((amt(*old(t), id) + amount) as u128)
            &&& forall|k: RuneId| k != id ==> final(t).spec_get(k) == old(t).spec_get(k)
        },
        !ok ==> {
            &&& amt(*old(t), id) + amount > u128::MAX
            &&& *final(t) == *old(t)
        },
{
    let current: u128 = match t.get(id) {
        Some(v) => *v,
        None => 0,
    };
    match current.checked_add(amount) {
        Some(new_total) => {
            t.insert(id, new_total);
            true
        },
        None => false,
    }
}


/// The balance of `id` in a table, as the executable reads it.
pub fn get_amount(t: &RuneTable<u128>, id: RuneId) -> (r: u128)
    ensures
        r == amt(*t, id),
{
    match t.get(id) {
        Some(v) => *v,
        None => 0,
    }
}

/// The total of `id` over a list of per-output allocation tables.
pub open spec fn alloc_sum(s: Seq<RuneTable<u128>>, id: RuneId) -> nat
    decreases s.len(),
{
    if s.len() == 0 {
        0
    } else {
        amt(s.first(), id) + alloc_sum(s.drop_first(), id)
    }
}

pub proof fn lemma_alloc_sum_update(s: Seq<RuneTable<u128>>, i: int, t: RuneTable<u128>, id: RuneId)
    requires
        0 <= i < s.len(),
    ensures
        alloc_sum(s.update(i, t), id) + amt(s[i], id) == alloc_sum(s, id) + amt(t, id),
    decreases s.len(),
{
    if i == 0 {
        assert(s.update(0, t).first() == t);
        assert(s.update(0, t).drop_first() =~= s.drop_first());
    } else {
        assert(s.update(i, t).first() == s.first());
        assert(s.update(i, t).drop_first() =~= s.drop_first().update(i - 1, t));
        lemma_alloc_sum_update(s.drop_first(), i - 1, t, id);
    }
}

/// An index's amount is part of the total.
pub proof fn lemma_alloc_sum_le(s: Seq<RuneTable<u128>>, i: int, id: RuneId)
    requires
        0 <= i < s.len(),
    ensures
        amt(s[i], id) <= alloc_sum(s, id),
    decreases s.len(),
{
    if i == 0 {
    } else {
        lemma_alloc_sum_le(s.drop_first(), i - 1, id);
    }
}

pub proof fn lemma_alloc_sum_push(s: Seq<RuneTable<u128>>, t: RuneTable<u128>, id: RuneId)
    ensures
        alloc_sum(s.push(t), id) == alloc_sum(s, id) + amt(t, id),
    decreases s.len(),
{
    if s.len() == 0 {
        assert(s.push(t).first() == t);
        assert(s.push(t).drop_first() =~= Seq::empty());
        assert(alloc_sum(s.push(t).drop_first(), id) == 0);
    } else {
        assert(s.push(t).first() == s.first());
        assert(s.push(t).drop_first() =~= s.drop_first().push(t));
        lemma_alloc_sum_push(s.drop_first(), t, id);
    }
}

/// Removes `amount` of rune `id` from a balance table.
pub fn sub_amount(t: &mut RuneTable<u128>, id: RuneId, amount: u128)
    requires
        old(t).wf(),
        amount <= amt(*old(t), id),
    ensures
        final(t).wf(),
        amt(*final(t), id) == amt(*old(t), id) - amount,
        forall|k: RuneId| k != id ==> final(t).spec_get(k) == old(t).spec_get(k),
{
    let current: u128 = match t.get(id) {
        Some(v) => *v,
        None => 0,
    };
    t.insert(id, current - amount);
}


pub proof fn lemma_row_amt_absent(s: Seq<(RuneId, u128)>, k: RuneId)
    requires
        forall|i: int| 0 <= i < s.len() ==> s[i].0 != k,
    ensures
        row_amt(s, k) == 0,
    decreases s.len(),
{
    if s.len() > 0 {
        assert forall|i: int| 0 <= i < s.drop_first().len() implies s.drop_first()[i].0 != k by {
            assert(s.drop_first()[i] == s[i + 1]);
        }
        lemma_row_amt_absent(s.drop_first(), k);
    }
}

/// In a duplicate-free entry list the looked-up amount is the row total.
pub proof fn lemma_seq_get_is_row_amt(s: Seq<(RuneId, u128)>, k: RuneId)
    requires
        crate::kv::dup_free(s),
    ensures
        (match crate::kv::seq_get(s, k) {
            Some(v) => v as nat,
            None => 0nat,
        }) == row_amt(s, k),
    decreases s.len(),
{
    if s.len() > 0 {
        assert(s =~= s.drop_last().push(s.last()));
        lemma_row_amt_snoc(s.drop_last(), s.last(), k);
        assert(crate::kv::dup_free(s.drop_last()));
        lemma_seq_get_is_row_amt(s.drop_last(), k);
        if s.last().0 == k {
            assert forall|i: int| 0 <= i < s.drop_last().len() implies s.drop_last()[i].0
                != k by {
                assert(s.drop_last()[i] == s[i]);
                assert(s[i].0 != s[s.len() - 1].0);
            }
            crate::kv::lemma_seq_get_absent(s.drop_last(), k);
        }
    }
}

/// In a well-formed table the looked-up amount is the row total.
pub proof fn lemma_amt_is_row_amt(t: RuneTable<u128>, k: RuneId)
    requires
        t.wf(),
    ensures
        amt(t, k) == row_amt(t.entries@, k),
{
    lemma_seq_get_is_row_amt(t.entries@, k);
}

} // verus!
