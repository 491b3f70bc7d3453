//! Baseline balances carried into a month.
//!
//! Snapshot rows are walked backward from the month boundary, most recent
//! first; each account takes its balance from the first row in which it is
//! non-zero, and an account that is zero in every walked row stays zero.

use vstd::prelude::*;

verus! {

/// Balance of the account in column `j`: the first non-zero value among the
/// rows, scanned most recent first, or zero.
pub open spec fn locate(rows: Seq<Seq<i64>>, j: int) -> i64
    decreases rows.len(),
{
    if rows.len() == 0 {
        0
    } else if rows[0][j] != 0 {
        rows[0][j]
    } else {
        locate(rows.skip(1), j)
    }
}

/// Carry-forward: the located baseline is the value of the most recent row
/// where the account is non-zero, or zero when the account is zero in every
/// row back to the epoch.
pub proof fn lemma_carry_forward(rows: Seq<Seq<i64>>, j: int)
    ensures
        (exists|i: int| 0 <= i < rows.len() && rows[i][j] != 0) ==> exists|i: int|
            {
                &&& 0 <= i < rows.len()
                &&& rows[i][j] != 0
                &&& locate(rows, j) == rows[i][j]
                &&& forall|h: int| 0 <= h < i ==> rows[h][j] == 0
            },
        (forall|i: int| 0 <= i < rows.len() ==> rows[i][j] == 0) ==> locate(rows, j) == 0,
    decreases rows.len(),
{
    if rows.len() > 0 {
        let tail = rows.skip(1);
        lemma_carry_forward(tail, j);
        assert(forall|i: int| 0 <= i < tail.len() ==> tail[i] == rows[i + 1]);
        if rows[0][j] != 0 {
            assert(0 <= 0 < rows.len() && rows[0][j] != 0 && locate(rows, j) == rows[0][j]);
        } else {
            if exists|i: int| 0 <= i < rows.len() && rows[i][j] != 0 {
                let w = choose|i: int| 0 <= i < rows.len() && rows[i][j] != 0;
                assert(w >= 1);
                assert(tail[w - 1][j] != 0);
                let t = choose|i: int|
                    {
                        &&& 0 <= i < tail.len()
                        &&& tail[i][j] != 0
                        &&& locate(tail, j) == tail[i][j]
                        &&& forall|h: int| 0 <= h < i ==> tail[h][j] == 0
                    };
                assert(rows[t + 1][j] != 0);
                assert(locate(rows, j) == rows[t + 1][j]);
                assert forall|h: int| 0 <= h < t + 1 implies rows[h][j] == 0 by {
                    if h >= 1 {
                        assert(tail[h - 1][j] == 0);
                    }
                }
            } else {
                assert forall|i: int| 0 <= i < tail.len() implies tail[i][j] == 0 by {
                    assert(rows[i + 1][j] == 0);
                }
            }
        }
    }
}

/// Some walked row gives the account in column `j` a non-zero balance.
pub open spec fn column_resolved(rows: Seq<Seq<i64>>, j: int) -> bool {
    exists|i: int| 0 <= i < rows.len() && #[trigger] rows[i][j] != 0
}

/// Every account has found a non-zero balance in some walked row.
pub fn fully_resolved(rows: &Vec<Vec<i64>>, n: usize) -> (r: bool)
    requires
        forall|i: int| 0 <= i < rows@.len() ==> (#[trigger] rows@[i])@.len() == n,
    ensures
        r == forall|j: int| 0 <= j < n ==> #[trigger] column_resolved(rows.deep_view(), j),
{
    let mut j: usize = 0;
    while j < n
        invariant
            0 <= j <= n,
            forall|i: int| 0 <= i < rows@.len() ==> (#[trigger] rows@[i])@.len() == n,
            forall|c: int| 0 <= c < j ==> #[trigger] column_resolved(rows.deep_view(), c),
        decreases n - j,
    {
        let mut found: bool = false;
        let mut i: usize = 0;
        while i < rows.len()
            invariant
                0 <= i <= rows@.len(),
                0 <= j < n,
                forall|t: int| 0 <= t < rows@.len() ==> (#[trigger] rows@[t])@.len() == n,
                found == exists|t: int|
                    0 <= t < i && #[trigger] rows.deep_view()[t][j as int] != 0,
            decreases rows@.len() - i,
        {
            proof {
                assert(rows.deep_view()[i as int] == rows@[i as int]@);
            }
            if rows[i][j] != 0 {
                found = true;
            }
            i = i + 1;
        }
        if !found {
            proof {
                assert(!column_resolved(rows.deep_view(), j as int));
            }
            return false;
        }
        proof {
            assert(column_resolved(rows.deep_view(), j as int));
        }
        j = j + 1;
    }
    true
}

/// Resolves the baseline for each account from the walked snapshot rows.
pub fn resolve_baseline(rows: &Vec<Vec<i64>>, n: usize) -> (r: Vec<i64>)
    requires
        forall|i: int| 0 <= i < rows@.len() ==> (#[trigger] rows@[i])@.len() == n,
    ensures
        r@.len() == n,
        forall|j: int| 0 <= j < n ==> r@[j] == locate(rows.deep_view(), j),
{
    let mut out: Vec<i64> = Vec::new();
    let mut j: usize = 0;
    while j < n
        invariant
            0 <= j <= n,
            out@.len() == j,
            forall|i: int| 0 <= i < rows@.len() ==> (#[trigger] rows@[i])@.len() == n,
            forall|c: int| 0 <= c < j ==> out@[c] == locate(rows.deep_view(), c),
        decreases n - j,
    {
        let mut val: i64 = 0;
        let mut i: usize = 0;
        let mut done: bool = false;
        proof {
            assert(rows.deep_view().skip(0) =~= rows.deep_view());
        }
        while i < rows.len()
            invariant
                0 <= i <= rows@.len(),
                0 <= j < n,
                forall|t: int| 0 <= t < rows@.len() ==> (#[trigger] rows@[t])@.len() == n,
                !done ==> val == 0,
                !done ==> forall|t: int|
                    0 <= t < i ==> #[trigger] rows.deep_view()[t][j as int] == 0,
                !done ==> locate(rows.deep_view(), j as int) == locate(
                    rows.deep_view().skip(i as int),
                    j as int,
                ),
                done ==> val == locate(rows.deep_view(), j as int),
            decreases rows@.len() - i,
        {
            proof {
                assert(rows.deep_view()[i as int] == rows@[i as int]@);
            }
            if !done {
                let v = rows[i][j];
                if v != 0 {
                    val = v;
                    done = true;
                    proof {
                        let suffix = rows.deep_view().skip(i as int);
                        assert(suffix[0] == rows.deep_view()[i as int]);
                        assert(locate(suffix, j as int) == suffix[0][j as int]);
                    }
                } else {
                    proof {
                        let suffix = rows.deep_view().skip(i as int);
                        assert(suffix[0] == rows.deep_view()[i as int]);
                        assert(suffix.skip(1) =~= rows.deep_view().skip(i + 1));
                        assert(locate(suffix, j as int) == locate(
                            rows.deep_view().skip(i + 1),
                            j as int,
                        ));
                    }
                }
            }
            i = i + 1;
        }
        proof {
            if !done {
                assert(rows.deep_view().skip(rows@.len() as int).len() == 0);
                assert(locate(rows.deep_view().skip(rows@.len() as int), j as int) == 0);
            }
        }
        out.push(val);
        j = j + 1;
    }
    out
}

} // verus!
