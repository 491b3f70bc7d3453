//! The ledger's persistence operations.
//!
//! Every query runs through a small trusted wrapper around `rusqlite`; all
//! text handed to the driver is built by verified code, and everything read
//! back is handed to verified logic as plain values.

use crate::baseline::fully_resolved;
use crate::baseline::resolve_baseline;
use crate::dates::get_sql_dates;
use crate::errors::IntegrityFault;
use crate::errors::LedgerError;
use crate::money::cents_text;
use crate::money::format_int;
use crate::money::int_text;
use crate::money::parse_cents_exec;
use crate::replay::replay_month;
use crate::replay::rows_view;
use crate::replay::sorted_rows;
use crate::replay::TxRow;
use vstd::prelude::*;

verus! {

#[verifier::external_type_specification]
#[verifier::external_body]
pub struct ExConnection(rusqlite::Connection);

#[verifier::external_type_specification]
#[verifier::external_body]
pub struct ExSqlError(rusqlite::Error);

/// Relies on rusqlite's `Connection::prepare`: refuses a store without the
/// snapshot table, so that the missing table surfaces as a failure value
/// rather than as an empty account list.
#[verifier::external_body]
fn probe_balance_table(conn: &rusqlite::Connection) -> (r: Result<(), rusqlite::Error>) {
    conn.prepare("SELECT * FROM balance_all").map(|_| ())
}

/// Relies on rusqlite's `Statement::query_map` over `PRAGMA
/// table_info(balance_all)`: the snapshot table's column names in
/// declaration order (the pragma lists columns by ascending column id).
/// Each name is read back as a row value, so a name that is not valid UTF-8
/// comes back as a failure value rather than a panic.
#[verifier::external_body]
fn query_balance_columns(conn: &rusqlite::Connection) -> (r: Result<
    Vec<String>,
    rusqlite::Error,
>) {
    let mut stmt = conn.prepare("PRAGMA table_info(balance_all)")?;
    let rows = stmt.query_map([], |row| row.get(1))?;
    rows.collect()
}

/// Relies on rusqlite's `Connection::query_row`: one row selected by an
/// integer key, its first `n` columns read as text.
#[verifier::external_body]
fn query_row_texts(conn: &rusqlite::Connection, sql: &str, id: i64, n: usize) -> (r: Result<
    Vec<String>,
    rusqlite::Error,
>)
    ensures
        r matches Ok(v) ==> v@.len() == n,
{
    conn.query_row(sql, [id], |row| {
        let mut out: Vec<String> = Vec::with_capacity(n);
        for c in 0..n {
            out.push(row.get(c)?);
        }
        Ok(out)
    })
}

/// Relies on rusqlite's `Connection::query_row`: one row of a query without
/// parameters, its first `n` columns read as text.
#[verifier::external_body]
fn query_row_texts_plain(conn: &rusqlite::Connection, sql: &str, n: usize) -> (r: Result<
    Vec<String>,
    rusqlite::Error,
>)
    ensures
        r matches Ok(v) ==> v@.len() == n,
{
    conn.query_row(sql, [], |row| {
        let mut out: Vec<String> = Vec::with_capacity(n);
        for c in 0..n {
            out.push(row.get(c)?);
        }
        Ok(out)
    })
}

/// Relies on rusqlite's `Connection::query_row`: the first column of the
/// single row of the given query, read as an integer.
#[verifier::external_body]
fn query_single_i32(conn: &rusqlite::Connection, sql: &str) -> (r: Result<i32, rusqlite::Error>) {
    conn.query_row(sql, [], |row| row.get(0))
}

/// Relies on rusqlite's `Connection::prepare` and `Statement::query_map` over
/// `SELECT * FROM tx_all Where date BETWEEN date(?) AND date(?) ORDER BY
/// date, id_num`: the transaction rows in the date range.  SQLite's `ORDER
/// BY` with the default `BINARY` collation sorts the date text bytewise,
/// which on UTF-8 text is exactly the character order `sorted_rows` states,
/// with `id_num` as the tie-break.
#[verifier::external_body]
fn query_tx_rows(conn: &rusqlite::Connection, d1: &str, d2: &str) -> (r: Result<
    Vec<TxRow>,
    rusqlite::Error,
>)
    ensures
        r matches Ok(v) ==> sorted_rows(rows_view(v@)),
{
    let mut stmt = conn.prepare(
        "SELECT * FROM tx_all Where date BETWEEN date(?) AND date(?) ORDER BY date, id_num",
    )?;
    let rows = stmt.query_map([d1, d2], |row| {
        Ok(TxRow {
            date: row.get(0)?,
            details: row.get(1)?,
            method: row.get(2)?,
            amount: row.get(3)?,
            kind: row.get(4)?,
            id_num: row.get(5)?,
        })
    })?;
    rows.collect()
}

/// Relies on rusqlite's `Connection::prepare` and `Statement::query_map` over
/// `SELECT * FROM changes_all Where date BETWEEN date(?) AND date(?) ORDER BY
/// date, id_num`: the recorded change rows in the date range, columns
/// `start` to `start + n` of each read as text.
#[verifier::external_body]
fn query_change_rows(
    conn: &rusqlite::Connection,
    d1: &str,
    d2: &str,
    start: usize,
    n: usize,
) -> (r: Result<Vec<Vec<String>>, rusqlite::Error>)
    ensures
        r matches Ok(v) ==> forall|i: int| 0 <= i < v@.len() ==> (#[trigger] v@[i])@.len() == n,
{
    let mut stmt = conn.prepare(
        "SELECT * FROM changes_all Where date BETWEEN date(?) AND date(?) ORDER BY date, id_num",
    )?;
    let rows = stmt.query_map([d1, d2], |row| {
        let mut out: Vec<String> = Vec::with_capacity(n);
        for c in 0..n {
            out.push(row.get(start + c)?);
        }
        Ok(out)
    })?;
    rows.collect()
}

/// Relies on rusqlite's `Connection::execute`: runs one statement without
/// parameters and reports how many rows it changed.
#[verifier::external_body]
fn execute_sql(conn: &rusqlite::Connection, sql: &str) -> (r: Result<usize, rusqlite::Error>) {
    conn.execute(sql, [])
}

/// Relies on rusqlite's `Error::QueryReturnedNoRows` variant: tells the
/// empty-result failure apart from every other driver failure.
#[verifier::external_body]
fn error_is_no_rows(e: &rusqlite::Error) -> bool {
    matches!(e, rusqlite::Error::QueryReturnedNoRows)
}

/// Relies on rusqlite's `Error` display impl: the driver's own message.
#[verifier::external_body]
fn error_text(e: &rusqlite::Error) -> String {
    format!("{}", e)
}

/// Maps a driver failure to the ledger's own failure values.
fn db_error(e: rusqlite::Error) -> (r: LedgerError)
    ensures
        r is NotFound || r is Connectivity,
{
    if error_is_no_rows(&e) {
        LedgerError::NotFound
    } else {
        LedgerError::Connectivity(error_text(&e))
    }
}

/// The account list read from a column layout: everything past the key
/// column, capped at ninety-eight accounts.
pub open spec fn methods_of(cols: Seq<Seq<char>>) -> Seq<Seq<char>> {
    if cols.len() <= 1 {
        Seq::empty()
    } else if cols.len() <= 99 {
        cols.skip(1)
    } else {
        cols.subrange(1, 99)
    }
}

/// Drops the key column from a column layout, keeping account order.
pub fn methods_from_columns(cols: &Vec<String>) -> (r: Vec<String>)
    ensures
        r.deep_view() == methods_of(cols.deep_view()),
        r@.len() <= 98,
{
    let stop: usize = if cols.len() > 99 {
        99
    } else {
        cols.len()
    };
    let mut out: Vec<String> = Vec::new();
    let mut i: usize = 1;
    if cols.len() <= 1 {
        proof {
            assert(out.deep_view() =~= methods_of(cols.deep_view()));
        }
        return out;
    }
    while i < stop
        invariant
            1 <= i <= stop <= cols@.len(),
            stop == if cols@.len() > 99 {
                99int
            } else {
                cols@.len() as int
            },
            out.deep_view() =~= cols.deep_view().subrange(1, i as int),
        decreases stop - i,
    {
        let ghost before = out.deep_view();
        out.push(cols[i].clone());
        proof {
            assert(cols.deep_view()[i as int] == cols@[i as int]@);
            assert(out.deep_view() =~= before.push(cols.deep_view()[i as int]));
            assert(out.deep_view() =~= cols.deep_view().subrange(1, i + 1));
        }
        i = i + 1;
    }
    proof {
        assert(out.deep_view() =~= methods_of(cols.deep_view()));
    }
    out
}

/// The ordered set of accounts, read from the snapshot store's column layout.
///
/// Account order is structural: it is the order of the snapshot columns, the
/// key column left out.  Fails only when the persistence layer refuses the
/// query.
pub fn get_all_tx_methods(conn: &rusqlite::Connection) -> (r: Result<Vec<String>, LedgerError>)
    ensures
        r matches Ok(v) ==> v@.len() <= 98,
        r matches Err(e) ==> e is NotFound || e is Connectivity,
{
    match probe_balance_table(conn) {
        Ok(()) => {},
        Err(e) => {
            return Err(db_error(e));
        },
    }
    match query_balance_columns(conn) {
        Ok(cols) => Ok(methods_from_columns(&cols)),
        Err(e) => Err(db_error(e)),
    }
}

/// One quoted column name.
pub open spec fn quoted(m: Seq<char>) -> Seq<char> {
    seq!['"'] + m + seq!['"']
}

/// The quoted column names joined by commas.
pub open spec fn quoted_cols(ms: Seq<Seq<char>>) -> Seq<char>
    decreases ms.len(),
{
    if ms.len() == 0 {
        Seq::empty()
    } else if ms.len() == 1 {
        quoted(ms[0])
    } else {
        quoted(ms[0]) + seq![',', ' '] + quoted_cols(ms.skip(1))
    }
}

fn append_quoted_cols(s: &mut String, methods: &Vec<String>, i: usize)
    requires
        i <= methods@.len(),
    ensures
        final(s)@ == old(s)@ + quoted_cols(methods.deep_view().skip(i as int)),
    decreases methods@.len() - i,
{
    proof {
        reveal_strlit("\"");
        reveal_strlit(", ");
        assert("\""@ =~= seq!['"']);
        assert(", "@ =~= seq![',', ' ']);
    }
    if i == methods.len() {
        proof {
            assert(methods.deep_view().skip(i as int).len() == 0);
            assert(final(s)@ =~= old(s)@ + quoted_cols(methods.deep_view().skip(i as int)));
        }
        return ;
    }
    s.append("\"");
    s.append(methods[i].as_str());
    s.append("\"");
    proof {
        assert(methods.deep_view().skip(i as int)[0] == methods@[i as int]@);
    }
    if i + 1 < methods.len() {
        s.append(", ");
        append_quoted_cols(s, methods, i + 1);
        proof {
            let tail = methods.deep_view().skip(i as int);
            assert(tail.skip(1) =~= methods.deep_view().skip(i + 1));
            assert(final(s)@ =~= old(s)@ + quoted_cols(tail));
        }
    } else {
        proof {
            let tail = methods.deep_view().skip(i as int);
            assert(tail.len() == 1);
            assert(final(s)@ =~= old(s)@ + quoted_cols(tail));
        }
    }
}

/// Query text selecting the account columns of one snapshot row by key.
pub open spec fn snapshot_select_text(ms: Seq<Seq<char>>) -> Seq<char> {
    "SELECT "@ + quoted_cols(ms) + " FROM balance_all WHERE id_num = ?"@
}

fn build_snapshot_select(methods: &Vec<String>) -> (r: String)
    ensures
        r@ == snapshot_select_text(methods.deep_view()),
{
    let mut s = String::from_str("SELECT ");
    append_quoted_cols(&mut s, methods, 0);
    s.append(" FROM balance_all WHERE id_num = ?");
    proof {
        assert(methods.deep_view().skip(0) =~= methods.deep_view());
        assert(s@ =~= snapshot_select_text(methods.deep_view()));
    }
    s
}

/// Query text selecting the account columns of the latest snapshot row.
pub open spec fn latest_select_text(ms: Seq<Seq<char>>) -> Seq<char> {
    "SELECT "@ + quoted_cols(ms) + " FROM balance_all ORDER BY id_num DESC LIMIT 1"@
}

fn build_latest_select(methods: &Vec<String>) -> (r: String)
    ensures
        r@ == latest_select_text(methods.deep_view()),
{
    let mut s = String::from_str("SELECT ");
    append_quoted_cols(&mut s, methods, 0);
    s.append(" FROM balance_all ORDER BY id_num DESC LIMIT 1");
    proof {
        assert(methods.deep_view().skip(0) =~= methods.deep_view());
        assert(s@ =~= latest_select_text(methods.deep_view()));
    }
    s
}

/// The assignment pairs of the self-heal statement, one per account; the
/// last pair is followed by a space, every other by a comma.
pub open spec fn heal_pairs(ms: Seq<Seq<char>>, vs: Seq<Seq<char>>) -> Seq<char>
    decreases ms.len(),
{
    if ms.len() == 0 {
        Seq::empty()
    } else {
        let tail: Seq<char> = if ms.len() == 1 {
            seq![' ']
        } else {
            seq![',', ' ']
        };
        quoted(ms[0]) + " = "@ + quoted(vs[0]) + tail + heal_pairs(ms.skip(1), vs.skip(1))
    }
}

/// The whole self-heal statement for one snapshot row.
pub open spec fn heal_sql_text(ms: Seq<Seq<char>>, vs: Seq<Seq<char>>, slot: int) -> Seq<char> {
    "UPDATE balance_all SET "@ + heal_pairs(ms, vs) + "WHERE id_num = "@ + int_text(slot)
}

fn append_heal_pairs(s: &mut String, methods: &Vec<String>, vals: &Vec<String>, i: usize)
    requires
        i <= methods@.len(),
        methods@.len() == vals@.len(),
    ensures
        final(s)@ == old(s)@ + heal_pairs(
            methods.deep_view().skip(i as int),
            vals.deep_view().skip(i as int),
        ),
    decreases methods@.len() - i,
{
    proof {
        reveal_strlit("\"");
        reveal_strlit(", ");
        reveal_strlit(" ");
        reveal_strlit(" = ");
        assert("\""@ =~= seq!['"']);
        assert(", "@ =~= seq![',', ' ']);
        assert(" "@ =~= seq![' ']);
    }
    if i == methods.len() {
        proof {
            assert(final(s)@ =~= old(s)@ + heal_pairs(
                methods.deep_view().skip(i as int),
                vals.deep_view().skip(i as int),
            ));
        }
        return ;
    }
    s.append("\"");
    s.append(methods[i].as_str());
    s.append("\" = \"");
    s.append(vals[i].as_str());
    s.append("\"");
    proof {
        reveal_strlit("\" = \"");
        assert("\" = \""@ =~= seq!['"'] + " = "@ + seq!['"']);
        assert(methods.deep_view().skip(i as int)[0] == methods@[i as int]@);
        assert(vals.deep_view().skip(i as int)[0] == vals@[i as int]@);
    }
    if i + 1 < methods.len() {
        s.append(", ");
    } else {
        s.append(" ");
    }
    append_heal_pairs(s, methods, vals, i + 1);
    proof {
        let mt = methods.deep_view().skip(i as int);
        let vt = vals.deep_view().skip(i as int);
        assert(mt.skip(1) =~= methods.deep_view().skip(i + 1));
        assert(vt.skip(1) =~= vals.deep_view().skip(i + 1));
        assert(final(s)@ =~= old(s)@ + heal_pairs(mt, vt));
    }
}

fn build_heal_sql(methods: &Vec<String>, vals: &Vec<String>, slot: i64) -> (r: String)
    requires
        methods@.len() == vals@.len(),
    ensures
        r@ == heal_sql_text(methods.deep_view(), vals.deep_view(), slot as int),
{
    let mut s = String::from_str("UPDATE balance_all SET ");
    append_heal_pairs(&mut s, methods, vals, 0);
    s.append("WHERE id_num = ");
    let id = format_int(slot);
    s.append(id.as_str());
    proof {
        assert(methods.deep_view().skip(0) =~= methods.deep_view());
        assert(vals.deep_view().skip(0) =~= vals.deep_view());
        assert(s@ =~= heal_sql_text(methods.deep_view(), vals.deep_view(), slot as int));
    }
    s
}

/// Baseline balances for the month: per account, the most recent non-zero
/// snapshot value at or before the month boundary, in cents; zero when no
/// snapshot back to the epoch has one.
///
/// Walks snapshot rows backward one at a time from the boundary slot,
/// stopping as soon as every account is resolved or the epoch is reached.
pub fn get_last_time_balance(
    conn: &rusqlite::Connection,
    month: usize,
    year: usize,
    tx_method: &Vec<String>,
) -> (r: Result<Vec<i64>, LedgerError>)
    requires
        month + year * 12 <= i32::MAX,
    ensures
        r matches Ok(v) ==> v@.len() == tx_method@.len(),
        month + year * 12 == 0 ==> (r matches Ok(v) && forall|j: int|
            0 <= j < v@.len() ==> v@[j] == 0),
{
    let n = tx_method.len();
    let mut target: i64 = (month as i64) + 12 * (year as i64);
    let mut rows: Vec<Vec<i64>> = Vec::new();
    if target == 0 {
        let zeros = resolve_baseline(&rows, n);
        proof {
            assert(rows.deep_view().len() == 0);
            assert(forall|j: int|
                0 <= j < n ==> crate::baseline::locate(rows.deep_view(), j) == 0);
        }
        return Ok(zeros);
    }
    let sql = build_snapshot_select(tx_method);
    while target > 0
        invariant
            forall|i: int| 0 <= i < rows@.len() ==> (#[trigger] rows@[i])@.len() == n,
            target <= i32::MAX,
            month + year * 12 > 0,
        decreases target,
    {
        let texts = match query_row_texts(conn, sql.as_str(), target, n) {
            Ok(t) => t,
            Err(e) => {
                return Err(db_error(e));
            },
        };
        let mut vals: Vec<i64> = Vec::new();
        let mut c: usize = 0;
        while c < n
            invariant
                0 <= c <= n,
                texts@.len() == n,
                vals@.len() == c,
                target <= i32::MAX,
                0 < target,
                month + year * 12 > 0,
            decreases n - c,
        {
            match parse_cents_exec(texts[c].as_str()) {
                Some(v) => vals.push(v),
                None => {
                    return Err(
                        LedgerError::Integrity(
                            IntegrityFault {
                                id_num: target as i32,
                                field: String::from_str("balance"),
                            },
                        ),
                    );
                },
            }
            c = c + 1;
        }
        rows.push(vals);
        target = target - 1;
        if target == 0 {
            break ;
        }
        if fully_resolved(&rows, n) {
            break ;
        }
    }
    Ok(resolve_baseline(&rows, n))
}

/// The recorded per-account change rows of the month, exactly as persisted:
/// a pure read of a different computation's output, no balance recomputed.
pub fn get_all_changes(conn: &rusqlite::Connection, month: usize, year: usize) -> (r: Result<
    Vec<Vec<String>>,
    LedgerError,
>)
    requires
        month < usize::MAX,
        year < usize::MAX,
    ensures
        r matches Ok(v) ==> forall|i: int, k: int|
            0 <= i < v@.len() && 0 <= k < v@.len() ==> (#[trigger] v@[i])@.len() == (
            #[trigger] v@[k])@.len(),
{
    let methods = match get_all_tx_methods(conn) {
        Ok(m) => m,
        Err(e) => {
            return Err(e);
        },
    };
    let (d1, d2) = get_sql_dates(month + 1, year);
    match query_change_rows(conn, d1.as_str(), d2.as_str(), 2, methods.len()) {
        Ok(rows) => Ok(rows),
        Err(e) => Err(db_error(e)),
    }
}

/// Replays the requested month and self-heals its snapshot row.
///
/// Reads the account list, locates the baseline, fetches the month's
/// transactions in (date, id) order, and replays them; when at least one
/// transaction was replayed, the end-of-month balances overwrite the snapshot
/// row of the month's own boundary slot.  The three returned sequences are
/// index-aligned: display rows, balances after each transaction, and ids.
pub fn get_all_txs(conn: &rusqlite::Connection, month: usize, year: usize) -> (r: Result<
    (Vec<Vec<String>>, Vec<Vec<String>>, Vec<String>),
    LedgerError,
>)
    requires
        month + 1 + year * 12 <= i32::MAX,
    ensures
        r matches Ok(t) ==> t.0@.len() == t.1@.len() && t.1@.len() == t.2@.len(),
{
    let methods = match get_all_tx_methods(conn) {
        Ok(m) => m,
        Err(e) => {
            return Err(e);
        },
    };
    if methods.len() == 0 {
        return Err(LedgerError::Schema(String::from_str("no transaction methods")));
    }
    let baseline = match get_last_time_balance(conn, month, year, &methods) {
        Ok(b) => b,
        Err(e) => {
            return Err(e);
        },
    };
    let (d1, d2) = get_sql_dates(month + 1, year);
    let txs = match query_tx_rows(conn, d1.as_str(), d2.as_str()) {
        Ok(t) => t,
        Err(e) => {
            return Err(db_error(e));
        },
    };
    let out = match replay_month(&methods, &baseline, &txs) {
        Ok(o) => o,
        Err(e) => {
            return Err(e);
        },
    };
    match &out.heal {
        Some(vals) => {
            let slot: i64 = (month as i64) + 1 + 12 * (year as i64);
            let sql = build_heal_sql(&methods, vals, slot);
            match execute_sql(conn, sql.as_str()) {
                Ok(_) => {},
                Err(e) => {
                    return Err(db_error(e));
                },
            }
        },
        None => {},
    }
    Ok((out.rows, out.balances, out.ids))
}

/// The display row for a month without changes: a label and one zero amount
/// per account.
pub fn empty_changes_row(methods: &Vec<String>) -> (r: Vec<String>)
    ensures
        r@.len() == methods@.len() + 1,
        r@[0]@ == "Changes"@,
        forall|i: int| 1 <= i < r@.len() ==> (#[trigger] r@[i])@ == cents_text(0),
{
    let mut out: Vec<String> = Vec::new();
    out.push(String::from_str("Changes"));
    let mut i: usize = 0;
    while i < methods.len()
        invariant
            0 <= i <= methods@.len(),
            out@.len() == i + 1,
            out@[0]@ == "Changes"@,
            forall|k: int| 1 <= k < out@.len() ==> (#[trigger] out@[k])@ == cents_text(0),
        decreases methods@.len() - i,
    {
        out.push(crate::money::format_cents(0));
        i = i + 1;
    }
    out
}

/// The zero-changes display row for the current account set.
pub fn get_empty_changes(conn: &rusqlite::Connection) -> (r: Result<Vec<String>, LedgerError>)
    ensures
        r matches Ok(v) ==> v@.len() >= 1 && v@[0]@ == "Changes"@ && forall|i: int|
            1 <= i < v@.len() ==> (#[trigger] v@[i])@ == cents_text(0),
        r matches Err(e) ==> e is NotFound || e is Connectivity,
{
    match get_all_tx_methods(conn) {
        Ok(methods) => Ok(empty_changes_row(&methods)),
        Err(e) => Err(e),
    }
}

/// The latest snapshot row's values for the requested accounts, as persisted
/// text; `NotFound` when the snapshot table is empty.
pub fn get_last_balances(conn: &rusqlite::Connection, tx_method: &Vec<String>) -> (r: Result<
    Vec<String>,
    LedgerError,
>)
    ensures
        r matches Ok(v) ==> v@.len() == tx_method@.len(),
        r matches Err(e) ==> e is NotFound || e is Connectivity,
{
    let sql = build_latest_select(tx_method);
    match query_row_texts_plain(conn, sql.as_str(), tx_method.len()) {
        Ok(v) => Ok(v),
        Err(e) => Err(db_error(e)),
    }
}

/// The greatest transaction id; `NotFound` when no transaction exists.
pub fn get_last_tx_id(conn: &rusqlite::Connection) -> (r: Result<i32, LedgerError>)
    ensures
        r matches Err(e) ==> e is NotFound || e is Connectivity,
{
    match query_single_i32(conn, "SELECT id_num FROM tx_all ORDER BY id_num DESC LIMIT 1") {
        Ok(v) => Ok(v),
        Err(e) => Err(db_error(e)),
    }
}

/// The greatest snapshot id; `NotFound` when no snapshot exists.
pub fn get_last_balance_id(conn: &rusqlite::Connection) -> (r: Result<i32, LedgerError>)
    ensures
        r matches Err(e) ==> e is NotFound || e is Connectivity,
{
    match query_single_i32(conn, "SELECT id_num FROM balance_all ORDER BY id_num DESC LIMIT 1") {
        Ok(v) => Ok(v),
        Err(e) => Err(db_error(e)),
    }
}

} // verus!
