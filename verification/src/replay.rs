//! Replay of one month's transactions.
//!
//! The transaction log is the source of truth: balances for a month are
//! recomputed by replaying its transactions forward from a baseline, and the
//! persisted end-of-month snapshot is merely a cache of the final state.

use crate::errors::IntegrityFault;
use crate::errors::LedgerError;
use crate::money::cents_text;
use crate::money::format_cents;
use crate::money::format_int;
use crate::money::int_text;
use crate::money::parse_cents;
use crate::money::parse_cents_exec;
use crate::text::split_text;
use crate::text::split_text_exec;
use crate::text::str_eq;
use vstd::prelude::*;

verus! {

/// One transaction row as persisted: the date, free text, the account
/// reference, the amount as decimal text, the type name, and the row id.
pub struct TxRow {
    pub date: String,
    pub details: String,
    pub method: String,
    pub amount: String,
    pub kind: String,
    pub id_num: i32,
}

/// Mathematical image of a transaction row.
pub struct TxRowView {
    pub date: Seq<char>,
    pub details: Seq<char>,
    pub method: Seq<char>,
    pub amount: Seq<char>,
    pub kind: Seq<char>,
    pub id_num: int,
}

impl View for TxRow {
    type V = TxRowView;

    open spec fn view(&self) -> TxRowView {
        TxRowView {
            date: self.date@,
            details: self.details@,
            method: self.method@,
            amount: self.amount@,
            kind: self.kind@,
            id_num: self.id_num as int,
        }
    }
}

pub open spec fn rows_view(rows: Seq<TxRow>) -> Seq<TxRowView> {
    rows.map_values(|r: TxRow| r@)
}

pub open spec fn ints_of(s: Seq<i64>) -> Seq<int> {
    s.map_values(|x: i64| x as int)
}

pub proof fn lemma_ints_of(s: Seq<i64>)
    ensures
        ints_of(s).len() == s.len(),
        forall|j: int| 0 <= j < s.len() ==> #[trigger] ints_of(s)[j] == s[j] as int,
        forall|j: int| 0 <= j < s.len() ==> in_i64(#[trigger] ints_of(s)[j]),
{
    assert forall|j: int| 0 <= j < s.len() implies #[trigger] ints_of(s)[j] == s[j] as int
        && in_i64(ints_of(s)[j]) by {}
}

/// First position of `name` in the account list, if any.
pub open spec fn method_index(methods: Seq<Seq<char>>, name: Seq<char>) -> Option<int>
    decreases methods.len(),
{
    if methods.len() == 0 {
        None
    } else if methods[0] == name {
        Some(0)
    } else {
        match method_index(methods.skip(1), name) {
            None => None,
            Some(i) => Some(i + 1),
        }
    }
}

pub proof fn lemma_method_index(methods: Seq<Seq<char>>, name: Seq<char>)
    ensures
        match method_index(methods, name) {
            Some(i) => 0 <= i < methods.len() && methods[i] == name && forall|j: int|
                0 <= j < i ==> methods[j] != name,
            None => forall|j: int| 0 <= j < methods.len() ==> methods[j] != name,
        },
    decreases methods.len(),
{
    if methods.len() > 0 && methods[0] != name {
        let tail = methods.skip(1);
        lemma_method_index(tail, name);
        assert(forall|j: int| 0 <= j < tail.len() ==> tail[j] == methods[j + 1]);
        match method_index(tail, name) {
            None => {
                assert forall|j: int| 0 <= j < methods.len() implies methods[j] != name by {
                    if j >= 1 {
                        assert(tail[j - 1] == methods[j]);
                    }
                }
            },
            Some(i) => {
                assert(methods[i + 1] == tail[i]);
                assert forall|j: int| 0 <= j < i + 1 implies methods[j] != name by {
                    if j >= 1 {
                        assert(tail[j - 1] == methods[j]);
                    }
                }
            },
        }
    }
}

pub open spec fn income_kind() -> Seq<char> {
    seq!['I', 'n', 'c', 'o', 'm', 'e']
}

pub open spec fn expense_kind() -> Seq<char> {
    seq!['E', 'x', 'p', 'e', 'n', 's', 'e']
}

pub open spec fn transfer_kind() -> Seq<char> {
    seq!['T', 'r', 'a', 'n', 's', 'f', 'e', 'r']
}

/// The fixed separator inside a compound transfer reference.
pub open spec fn transfer_sep() -> Seq<char> {
    seq![' ', 't', 'o', ' ']
}

pub open spec fn dash() -> Seq<char> {
    seq!['-']
}

/// The pieces of a date between dashes.
pub open spec fn date_parts(d: Seq<char>) -> Seq<Seq<char>> {
    split_text(d, dash())
}

/// A stored year-month-day date turned into day-month-year display form.
pub open spec fn flip_date(d: Seq<char>) -> Seq<char>
    recommends
        date_parts(d).len() >= 3,
{
    date_parts(d)[2] + dash() + date_parts(d)[1] + dash() + date_parts(d)[0]
}

/// What a transaction does to the balances, by account position.
pub enum SpecEffect {
    Income { idx: int },
    Expense { idx: int },
    Transfer { from: int, to: int },
}

/// The effect of a row against an account list; `None` when the type is
/// unknown, the compound reference does not split into exactly two distinct
/// non-empty names, or a named account is missing.
pub open spec fn effect_of(methods: Seq<Seq<char>>, r: TxRowView) -> Option<SpecEffect> {
    if r.kind == income_kind() {
        match method_index(methods, r.method) {
            Some(i) => Some(SpecEffect::Income { idx: i }),
            None => None,
        }
    } else if r.kind == expense_kind() {
        match method_index(methods, r.method) {
            Some(i) => Some(SpecEffect::Expense { idx: i }),
            None => None,
        }
    } else if r.kind == transfer_kind() {
        let ps = split_text(r.method, transfer_sep());
        if ps.len() == 2 && ps[0].len() > 0 && ps[1].len() > 0 && ps[0] != ps[1] {
            match (method_index(methods, ps[0]), method_index(methods, ps[1])) {
                (Some(a), Some(b)) => Some(SpecEffect::Transfer { from: a, to: b }),
                _ => None,
            }
        } else {
            None
        }
    } else {
        None
    }
}

/// A row that can be replayed: its date has three parts, its amount parses,
/// and its effect resolves against the account list.
pub open spec fn row_ok(methods: Seq<Seq<char>>, r: TxRowView) -> bool {
    &&& date_parts(r.date).len() >= 3
    &&& parse_cents(r.amount) is Some
    &&& effect_of(methods, r) is Some
}

/// Balances after one effect.
pub open spec fn apply_effect(b: Seq<int>, e: SpecEffect, amt: int) -> Seq<int> {
    match e {
        SpecEffect::Income { idx } => b.update(idx, b[idx] + amt),
        SpecEffect::Expense { idx } => b.update(idx, b[idx] - amt),
        SpecEffect::Transfer { from, to } => b.update(from, b[from] - amt).update(
            to,
            b[to] + amt,
        ),
    }
}

pub open spec fn apply_row(methods: Seq<Seq<char>>, b: Seq<int>, r: TxRowView) -> Seq<int>
    recommends
        row_ok(methods, r),
{
    apply_effect(b, effect_of(methods, r).unwrap(), parse_cents(r.amount).unwrap())
}

/// Balances after the first `k` rows, starting from the baseline.
pub open spec fn state_at(
    methods: Seq<Seq<char>>,
    b0: Seq<int>,
    rows: Seq<TxRowView>,
    k: int,
) -> Seq<int>
    decreases k,
{
    if k <= 0 {
        b0
    } else {
        apply_row(methods, state_at(methods, b0, rows, k - 1), rows[k - 1])
    }
}

pub open spec fn in_i64(v: int) -> bool {
    i64::MIN <= v <= i64::MAX
}

/// The whole month replays: every row is sound and every balance along the
/// way stays within machine range.
pub open spec fn replay_ok(methods: Seq<Seq<char>>, b0: Seq<int>, rows: Seq<TxRowView>) -> bool {
    &&& forall|k: int| 0 <= k < rows.len() ==> row_ok(methods, #[trigger] rows[k])
    &&& forall|k: int|
        0 <= k < rows.len() ==> amount_in_range(parse_cents(#[trigger] rows[k].amount).unwrap())
    &&& forall|k: int, j: int|
        0 <= k <= rows.len() && 0 <= j < methods.len() ==> in_i64(
            #[trigger] state_at(methods, b0, rows, k)[j],
        )
}

/// The replay cannot pass row `k`: the row itself is unsound, its amount is
/// out of machine range, or applying it pushes some balance out of range.
pub open spec fn row_fails(
    methods: Seq<Seq<char>>,
    b0: Seq<int>,
    rows: Seq<TxRowView>,
    k: int,
) -> bool {
    ||| !row_ok(methods, rows[k])
    ||| !amount_in_range(parse_cents(rows[k].amount).unwrap())
    ||| exists|j: int|
        0 <= j < methods.len() && !in_i64(#[trigger] state_at(methods, b0, rows, k + 1)[j])
}

/// The display form of one row: flipped date, then the stored fields.
pub open spec fn display_row(r: TxRowView) -> Seq<Seq<char>> {
    seq![flip_date(r.date), r.details, r.method, r.amount, r.kind]
}

pub open spec fn display_rows(rows: Seq<TxRowView>) -> Seq<Seq<Seq<char>>> {
    Seq::new(rows.len(), |i: int| display_row(rows[i]))
}

/// Balances rendered to two-decimal text, in account order.
pub open spec fn balance_texts(b: Seq<int>) -> Seq<Seq<char>> {
    Seq::new(b.len(), |j: int| cents_text(b[j]))
}

pub open spec fn balances_out(
    methods: Seq<Seq<char>>,
    b0: Seq<int>,
    rows: Seq<TxRowView>,
) -> Seq<Seq<Seq<char>>> {
    Seq::new(rows.len(), |i: int| balance_texts(state_at(methods, b0, rows, i + 1)))
}

pub open spec fn ids_out(rows: Seq<TxRowView>) -> Seq<Seq<char>> {
    Seq::new(rows.len(), |i: int| int_text(rows[i].id_num))
}

/// Lexicographic order on character sequences, the order in which the
/// persistence layer sorts date text.
pub open spec fn lex_le(a: Seq<char>, b: Seq<char>) -> bool
    decreases a.len(),
{
    if a.len() == 0 {
        true
    } else if b.len() == 0 {
        false
    } else if (a[0] as int) < (b[0] as int) {
        true
    } else if (a[0] as int) > (b[0] as int) {
        false
    } else {
        lex_le(a.skip(1), b.skip(1))
    }
}

/// Transaction order: date ascending, row id as the tie-break.
pub open spec fn date_id_le(a: TxRowView, b: TxRowView) -> bool {
    lex_le(a.date, b.date) && (a.date == b.date ==> a.id_num <= b.id_num)
}

pub open spec fn sorted_rows(rows: Seq<TxRowView>) -> bool {
    forall|i: int, j: int| 0 <= i < j < rows.len() ==> #[trigger] date_id_le(rows[i], rows[j])
}

/// An amount the replay arithmetic accepts.
pub open spec fn amount_in_range(v: int) -> bool {
    -(i64::MAX as int) <= v <= i64::MAX
}

/// A row that can be applied to the given balances without leaving machine
/// range.
pub open spec fn row_applies(methods: Seq<Seq<char>>, b: Seq<int>, r: TxRowView) -> bool {
    &&& parse_cents(r.amount) is Some
    &&& amount_in_range(parse_cents(r.amount).unwrap())
    &&& effect_of(methods, r) is Some
    &&& forall|j: int| 0 <= j < b.len() ==> in_i64(#[trigger] apply_row(methods, b, r)[j])
}

/// First position of `name` among the accounts.
pub fn find_method(methods: &Vec<String>, name: &str) -> (r: Option<usize>)
    ensures
        ({
            let mi = method_index(methods.deep_view(), name@);
            match r {
                Some(i) => mi == Some(i as int),
                None => mi is None,
            }
        }),
{
    let n = methods.len();
    let mut i: usize = 0;
    while i < n
        invariant
            n == methods@.len(),
            0 <= i <= n,
            forall|j: int| 0 <= j < i ==> methods.deep_view()[j] != name@,
        decreases n - i,
    {
        proof {
            assert(methods.deep_view()[i as int] == methods@[i as int]@);
        }
        if str_eq(methods[i].as_str(), name) {
            proof {
                lemma_method_index(methods.deep_view(), name@);
                let mi = method_index(methods.deep_view(), name@);
                if mi is None {
                    assert(methods.deep_view()[i as int] != name@);
                } else if mi.unwrap() != i as int {
                    if mi.unwrap() < i as int {
                        assert(methods.deep_view()[mi.unwrap()] != name@);
                    } else {
                        assert(methods.deep_view()[i as int] != name@);
                    }
                }
            }
            return Some(i);
        }
        i = i + 1;
    }
    proof {
        lemma_method_index(methods.deep_view(), name@);
        let mi = method_index(methods.deep_view(), name@);
        if mi is Some {
            assert(methods.deep_view()[mi.unwrap()] != name@);
        }
    }
    None
}

/// Applies one transaction to the balances, or reports why it cannot be.
fn apply_tx(methods: &Vec<String>, bal: &mut Vec<i64>, row: &TxRow) -> (r: Result<
    (),
    LedgerError,
>)
    requires
        old(bal)@.len() == methods.deep_view().len(),
    ensures
        final(bal)@.len() == old(bal)@.len(),
        r is Ok <==> row_applies(methods.deep_view(), ints_of(old(bal)@), row@),
        r is Ok ==> ints_of(final(bal)@) == apply_row(
            methods.deep_view(),
            ints_of(old(bal)@),
            row@,
        ),
        r is Err ==> final(bal)@ == old(bal)@,
        r matches Err(e) ==> e is Integrity || e is Schema,
        r matches Err(LedgerError::Integrity(f)) ==> f.id_num == row.id_num,
{
    let ghost mv = methods.deep_view();
    let ghost b0 = ints_of(bal@);
    proof {
        lemma_ints_of(bal@);
        reveal_strlit("Income");
        reveal_strlit("Expense");
        reveal_strlit("Transfer");
        reveal_strlit(" to ");
        assert("Income"@ =~= income_kind());
        assert("Expense"@ =~= expense_kind());
        assert("Transfer"@ =~= transfer_kind());
        assert(" to "@ =~= transfer_sep());
    }
    let amt = match parse_cents_exec(row.amount.as_str()) {
        Some(v) => v,
        None => {
            return Err(
                LedgerError::Integrity(
                    IntegrityFault { id_num: row.id_num, field: String::from_str("amount") },
                ),
            );
        },
    };
    if str_eq(row.kind.as_str(), "Income") || str_eq(row.kind.as_str(), "Expense") {
        let income: bool = str_eq(row.kind.as_str(), "Income");
        let idx = match find_method(methods, row.method.as_str()) {
            Some(i) => i,
            None => {
                return Err(LedgerError::Schema(String::from_str("unknown transaction method")));
            },
        };
        proof {
            lemma_method_index(mv, row.method@);
        }
        let cur: i64 = bal[idx];
        proof {
            assert(b0[idx as int] == cur as int);
        }
        let next = if income {
            cur.checked_add(amt)
        } else {
            cur.checked_sub(amt)
        };
        let nv = match next {
            Some(v) => v,
            None => {
                proof {
                    assert(!in_i64(apply_row(mv, b0, row@)[idx as int]));
                }
                return Err(
                    LedgerError::Integrity(
                        IntegrityFault { id_num: row.id_num, field: String::from_str("balance") },
                    ),
                );
            },
        };
        bal[idx] = nv;
        proof {
            lemma_ints_of(bal@);
            assert forall|j: int| 0 <= j < b0.len() implies ints_of(bal@)[j] == apply_row(
                mv,
                b0,
                row@,
            )[j] by {}
            assert(ints_of(bal@) =~= apply_row(mv, b0, row@));
            assert(forall|j: int|
                0 <= j < b0.len() ==> in_i64(#[trigger] apply_row(mv, b0, row@)[j]));
        }
        Ok(())
    } else if str_eq(row.kind.as_str(), "Transfer") {
        let parts = split_text_exec(row.method.as_str(), " to ");
        let ghost ps = split_text(row.method@, transfer_sep());
        if parts.len() != 2 {
            return Err(
                LedgerError::Integrity(
                    IntegrityFault { id_num: row.id_num, field: String::from_str("method") },
                ),
            );
        }
        proof {
            assert(parts.deep_view()[0] == parts@[0]@);
            assert(parts.deep_view()[1] == parts@[1]@);
        }
        if parts[0].as_str().is_empty() || parts[1].as_str().is_empty() {
            return Err(
                LedgerError::Integrity(
                    IntegrityFault { id_num: row.id_num, field: String::from_str("method") },
                ),
            );
        }
        if str_eq(parts[0].as_str(), parts[1].as_str()) {
            return Err(
                LedgerError::Integrity(
                    IntegrityFault { id_num: row.id_num, field: String::from_str("method") },
                ),
            );
        }
        let from = match find_method(methods, parts[0].as_str()) {
            Some(i) => i,
            None => {
                return Err(LedgerError::Schema(String::from_str("unknown transaction method")));
            },
        };
        let to = match find_method(methods, parts[1].as_str()) {
            Some(i) => i,
            None => {
                return Err(LedgerError::Schema(String::from_str("unknown transaction method")));
            },
        };
        proof {
            lemma_method_index(mv, ps[0]);
            lemma_method_index(mv, ps[1]);
            assert(mv[from as int] == ps[0]);
            assert(mv[to as int] == ps[1]);
            assert(from != to);
        }
        proof {
            assert(b0[from as int] == bal@[from as int] as int);
            assert(b0[to as int] == bal@[to as int] as int);
        }
        let nf = match bal[from].checked_sub(amt) {
            Some(v) => v,
            None => {
                proof {
                    assert(!in_i64(apply_row(mv, b0, row@)[from as int]));
                }
                return Err(
                    LedgerError::Integrity(
                        IntegrityFault { id_num: row.id_num, field: String::from_str("balance") },
                    ),
                );
            },
        };
        let nt = match bal[to].checked_add(amt) {
            Some(v) => v,
            None => {
                proof {
                    assert(!in_i64(apply_row(mv, b0, row@)[to as int]));
                }
                return Err(
                    LedgerError::Integrity(
                        IntegrityFault { id_num: row.id_num, field: String::from_str("balance") },
                    ),
                );
            },
        };
        bal[from] = nf;
        bal[to] = nt;
        proof {
            lemma_ints_of(bal@);
            assert forall|j: int| 0 <= j < b0.len() implies ints_of(bal@)[j] == apply_row(
                mv,
                b0,
                row@,
            )[j] by {}
            assert(ints_of(bal@) =~= apply_row(mv, b0, row@));
            assert(forall|j: int|
                0 <= j < b0.len() ==> in_i64(#[trigger] apply_row(mv, b0, row@)[j]));
        }
        Ok(())
    } else {
        Err(
            LedgerError::Integrity(
                IntegrityFault { id_num: row.id_num, field: String::from_str("type") },
            ),
        )
    }
}

/// Renders the current balances to two-decimal text, in account order.
fn balance_row(bal: &Vec<i64>) -> (r: Vec<String>)
    ensures
        r.deep_view() == balance_texts(ints_of(bal@)),
        r@.len() == bal@.len(),
{
    let mut row: Vec<String> = Vec::new();
    let mut j: usize = 0;
    while j < bal.len()
        invariant
            0 <= j <= bal@.len(),
            row.deep_view() =~= balance_texts(ints_of(bal@)).subrange(0, j as int),
        decreases bal@.len() - j,
    {
        let ghost before = row.deep_view();
        row.push(format_cents(bal[j]));
        proof {
            assert(row.deep_view() =~= before.push(cents_text(bal@[j as int] as int)));
            assert(row.deep_view() =~= balance_texts(ints_of(bal@)).subrange(0, j + 1));
        }
        j = j + 1;
    }
    proof {
        assert(row.deep_view() =~= balance_texts(ints_of(bal@)));
    }
    row
}

/// Everything the replay of one month yields: the reformatted transaction
/// rows, the balances after each transaction, the transaction ids, and, when
/// at least one transaction was replayed, the end-of-month balances to write
/// back into the snapshot cache.
pub struct ReplayOut {
    pub rows: Vec<Vec<String>>,
    pub balances: Vec<Vec<String>>,
    pub ids: Vec<String>,
    pub heal: Option<Vec<String>>,
}

/// Replays one month of transactions from a baseline.
///
/// The three output sequences are index-aligned with the given transactions;
/// a month with no transactions yields three empty sequences and nothing to
/// write back.
pub fn replay_month(methods: &Vec<String>, baseline: &Vec<i64>, txs: &Vec<TxRow>) -> (r: Result<
    ReplayOut,
    LedgerError,
>)
    requires
        baseline@.len() == methods.deep_view().len(),
    ensures
        ({
            let mv = methods.deep_view();
            let b0 = ints_of(baseline@);
            let tv = rows_view(txs@);
            &&& (r is Ok <==> replay_ok(mv, b0, tv))
            &&& (r matches Ok(out) ==> {
                &&& out.rows.deep_view() == display_rows(tv)
                &&& out.balances.deep_view() == balances_out(mv, b0, tv)
                &&& out.ids.deep_view() == ids_out(tv)
                &&& out.rows@.len() == tv.len()
                &&& out.balances@.len() == tv.len()
                &&& out.ids@.len() == tv.len()
                &&& (tv.len() == 0 ==> out.heal is None)
                &&& (tv.len() > 0 ==> (out.heal matches Some(h) && h@.len() == mv.len()
                    && h.deep_view() == balance_texts(state_at(mv, b0, tv, tv.len() as int))))
            })
            &&& (r matches Err(e) ==> e is Integrity || e is Schema)
            &&& (r matches Err(e) ==> exists|k: int|
                {
                    &&& 0 <= k < tv.len()
                    &&& #[trigger] row_fails(mv, b0, tv, k)
                    &&& (forall|h: int| 0 <= h < k ==> !row_fails(mv, b0, tv, h))
                    &&& (e matches LedgerError::Integrity(f) ==> f.id_num as int
                        == tv[k].id_num)
                })
        }),
{
    let ghost mv = methods.deep_view();
    let ghost b0 = ints_of(baseline@);
    let ghost tv = rows_view(txs@);
    proof {
        reveal_strlit("-");
        assert("-"@ =~= dash());
        assert(tv.len() == txs@.len());
    }
    let n = methods.len();
    let mut bal: Vec<i64> = Vec::new();
    let mut ci: usize = 0;
    while ci < baseline.len()
        invariant
            0 <= ci <= baseline@.len(),
            bal@ =~= baseline@.subrange(0, ci as int),
        decreases baseline@.len() - ci,
    {
        bal.push(baseline[ci]);
        ci = ci + 1;
    }
    proof {
        assert(bal@ =~= baseline@);
        assert(state_at(mv, b0, tv, 0) == b0);
    }
    let mut out_rows: Vec<Vec<String>> = Vec::new();
    let mut out_bals: Vec<Vec<String>> = Vec::new();
    let mut out_ids: Vec<String> = Vec::new();
    let mut k: usize = 0;
    while k < txs.len()
        invariant
            0 <= k <= txs@.len(),
            tv == rows_view(txs@),
            mv == methods.deep_view(),
            b0 == ints_of(baseline@),
            tv.len() == txs@.len(),
            baseline@.len() == mv.len(),
            bal@.len() == mv.len(),
            ints_of(bal@) == state_at(mv, b0, tv, k as int),
            forall|i: int| 0 <= i < k ==> row_ok(mv, #[trigger] tv[i]),
            forall|i: int|
                0 <= i < k ==> amount_in_range(parse_cents(#[trigger] tv[i].amount).unwrap()),
            forall|i: int, j: int|
                0 <= i <= k && 0 <= j < mv.len() ==> in_i64(
                    #[trigger] state_at(mv, b0, tv, i)[j],
                ),
            out_rows.deep_view() =~= display_rows(tv).subrange(0, k as int),
            out_bals.deep_view() =~= balances_out(mv, b0, tv).subrange(0, k as int),
            out_ids.deep_view() =~= ids_out(tv).subrange(0, k as int),
        decreases txs@.len() - k,
    {
        let row = &txs[k];
        proof {
            assert(tv[k as int] == txs@[k as int]@);
            reveal_strlit("-");
            assert("-"@ =~= dash());
        }
        let parts = split_text_exec(row.date.as_str(), "-");
        if parts.len() < 3 {
            proof {
                assert(!row_ok(mv, tv[k as int]));
                assert(row_fails(mv, b0, tv, k as int));
                assert forall|h: int| 0 <= h < k implies !row_fails(mv, b0, tv, h) by {
                    assert(row_ok(mv, tv[h]));
                    assert(amount_in_range(parse_cents(tv[h].amount).unwrap()));
                    assert(forall|j: int|
                        0 <= j < mv.len() ==> in_i64(#[trigger] state_at(mv, b0, tv, h + 1)[j]));
                }
            }
            return Err(
                LedgerError::Integrity(
                    IntegrityFault { id_num: row.id_num, field: String::from_str("date") },
                ),
            );
        }
        proof {
            assert(parts.deep_view()[0] == parts@[0]@);
            assert(parts.deep_view()[1] == parts@[1]@);
            assert(parts.deep_view()[2] == parts@[2]@);
        }
        let mut flipped = parts[2].clone();
        flipped.append("-");
        flipped.append(parts[1].as_str());
        flipped.append("-");
        flipped.append(parts[0].as_str());
        proof {
            assert(flipped@ =~= flip_date(tv[k as int].date));
        }
        match apply_tx(methods, &mut bal, row) {
            Ok(()) => {},
            Err(e) => {
                proof {
                    assert(!row_applies(mv, state_at(mv, b0, tv, k as int), tv[k as int]));
                    assert(state_at(mv, b0, tv, k + 1) == apply_row(
                        mv,
                        state_at(mv, b0, tv, k as int),
                        tv[k as int],
                    ));
                    assert(row_fails(mv, b0, tv, k as int));
                    assert forall|h: int| 0 <= h < k implies !row_fails(mv, b0, tv, h) by {
                        assert(row_ok(mv, tv[h]));
                        assert(amount_in_range(parse_cents(tv[h].amount).unwrap()));
                        assert(forall|j: int|
                            0 <= j < mv.len() ==> in_i64(
                                #[trigger] state_at(mv, b0, tv, h + 1)[j],
                            ));
                    }
                    assert(!replay_ok(mv, b0, tv)) by {
                        if replay_ok(mv, b0, tv) {
                            assert(row_ok(mv, tv[k as int]));
                            assert(amount_in_range(parse_cents(tv[k as int].amount).unwrap()));
                            assert(forall|j: int|
                                0 <= j < mv.len() ==> in_i64(
                                    #[trigger] state_at(mv, b0, tv, k + 1)[j],
                                ));
                            assert(state_at(mv, b0, tv, k + 1) == apply_row(
                                mv,
                                state_at(mv, b0, tv, k as int),
                                tv[k as int],
                            ));
                            assert(row_applies(mv, state_at(mv, b0, tv, k as int), tv[k as int]));
                        }
                    }
                }
                return Err(e);
            },
        }
        let ghost rows_before = out_rows.deep_view();
        let ghost bals_before = out_bals.deep_view();
        let ghost ids_before = out_ids.deep_view();
        let drow = vec![
            flipped,
            row.details.clone(),
            row.method.clone(),
            row.amount.clone(),
            row.kind.clone(),
        ];
        proof {
            assert(drow.deep_view() =~= display_row(tv[k as int]));
        }
        out_rows.push(drow);
        out_bals.push(balance_row(&bal));
        out_ids.push(format_int(row.id_num as i64));
        k = k + 1;
        proof {
            assert(ints_of(bal@) == state_at(mv, b0, tv, k as int));
            assert(forall|i: int, j: int|
                0 <= i <= k && 0 <= j < mv.len() ==> in_i64(
                    #[trigger] state_at(mv, b0, tv, i)[j],
                )) by {
                assert(forall|j: int|
                    0 <= j < mv.len() ==> in_i64(#[trigger] ints_of(bal@)[j]));
            }
            assert(out_rows.deep_view() =~= rows_before.push(display_row(tv[k - 1])));
            assert(out_rows.deep_view() =~= display_rows(tv).subrange(0, k as int));
            assert(out_bals.deep_view() =~= bals_before.push(
                balance_texts(state_at(mv, b0, tv, k as int)),
            ));
            assert(out_bals.deep_view() =~= balances_out(mv, b0, tv).subrange(0, k as int));
            assert(out_ids.deep_view() =~= ids_before.push(int_text(tv[k - 1].id_num)));
            assert(out_ids.deep_view() =~= ids_out(tv).subrange(0, k as int));
        }
    }
    let heal: Option<Vec<String>> = if txs.len() > 0 {
        Some(balance_row(&bal))
    } else {
        None
    };
    proof {
        assert(out_rows.deep_view() =~= display_rows(tv));
        assert(out_bals.deep_view() =~= balances_out(mv, b0, tv));
        assert(out_ids.deep_view() =~= ids_out(tv));
        assert(replay_ok(mv, b0, tv));
    }
    Ok(ReplayOut { rows: out_rows, balances: out_bals, ids: out_ids, heal })
}

} // verus!
