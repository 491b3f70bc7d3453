use rex::LedgerError;
use rusqlite::Connection;

fn create_test_db(methods: &[&str]) -> Connection {
    let conn = Connection::open_in_memory().unwrap();
    let mut balance_cols = String::new();
    let mut change_cols = String::new();
    let mut zero_row = String::new();
    for m in methods {
        balance_cols.push_str(&format!(", \"{}\" TEXT", m));
        change_cols.push_str(&format!(", \"{}\" TEXT", m));
        zero_row.push_str(", \"0.00\"");
    }
    conn.execute(
        &format!("CREATE TABLE balance_all (id_num INTEGER PRIMARY KEY{})", balance_cols),
        [],
    )
    .unwrap();
    conn.execute(
        "CREATE TABLE tx_all (date TEXT, details TEXT, tx_method TEXT, amount TEXT, type TEXT, id_num INTEGER PRIMARY KEY)",
        [],
    )
    .unwrap();
    conn.execute(
        &format!(
            "CREATE TABLE changes_all (date TEXT, id_num INTEGER{})",
            change_cols
        ),
        [],
    )
    .unwrap();
    for id in 1..=12 {
        conn.execute(
            &format!("INSERT INTO balance_all VALUES ({}{})", id, zero_row),
            [],
        )
        .unwrap();
    }
    conn
}

fn two_method_db() -> Connection {
    create_test_db(&["test1", "test 2"])
}

fn add_new_tx(conn: &Connection, date: &str, details: &str, method: &str, amount: &str, kind: &str) {
    conn.execute(
        "INSERT INTO tx_all (date, details, tx_method, amount, type) VALUES (?1, ?2, ?3, ?4, ?5)",
        [date, details, method, amount, kind],
    )
    .unwrap();
}

fn s(v: &str) -> String {
    v.to_string()
}

#[test]
fn check_last_tx_id_1() {
    let conn = two_method_db();
    let data = rex::get_last_tx_id(&conn);
    assert!(matches!(data, Err(LedgerError::NotFound)));
}

#[test]
fn check_last_tx_id_2() {
    let conn = two_method_db();
    add_new_tx(
        &conn,
        "2022-09-19",
        "Testing transaction",
        "test1",
        "100.00",
        "Income",
    );
    let data = rex::get_last_tx_id(&conn);
    assert_eq!(data.unwrap(), 1);
}

#[test]
fn check_getting_all_tx_1() {
    let conn = two_method_db();
    let data = rex::get_all_txs(&conn, 6, 0).unwrap();
    let expected_data = (Vec::new(), Vec::new(), Vec::new());
    assert_eq!(data, expected_data);
}

#[test]
fn check_getting_all_tx_2() {
    let conn = two_method_db();
    add_new_tx(
        &conn,
        "2022-07-19",
        "Testing transaction",
        "test1",
        "100.00",
        "Expense",
    );
    add_new_tx(
        &conn,
        "2022-07-19",
        "Testing transaction",
        "test 2",
        "100.00",
        "Expense",
    );
    add_new_tx(
        &conn,
        "2022-05-15",
        "Testing transaction",
        "test 2",
        "100.00",
        "Expense",
    );
    add_new_tx(
        &conn,
        "2022-05-20",
        "Testing transaction",
        "test 2",
        "100.00",
        "Income",
    );

    let data = rex::get_all_txs(&conn, 6, 0).unwrap();
    let data_2 = rex::get_all_txs(&conn, 4, 0).unwrap();

    let expected_data = (
        vec![
            vec![
                s("19-07-2022"),
                s("Testing transaction"),
                s("test1"),
                s("100.00"),
                s("Expense"),
            ],
            vec![
                s("19-07-2022"),
                s("Testing transaction"),
                s("test 2"),
                s("100.00"),
                s("Expense"),
            ],
        ],
        vec![
            vec![s("-100.00"), s("0.00")],
            vec![s("-100.00"), s("-100.00")],
        ],
        vec![s("1"), s("2")],
    );

    let expected_data_2 = (
        vec![
            vec![
                s("15-05-2022"),
                s("Testing transaction"),
                s("test 2"),
                s("100.00"),
                s("Expense"),
            ],
            vec![
                s("20-05-2022"),
                s("Testing transaction"),
                s("test 2"),
                s("100.00"),
                s("Income"),
            ],
        ],
        vec![
            vec![s("0.00"), s("-100.00")],
            vec![s("0.00"), s("0.00")],
        ],
        vec![s("3"), s("4")],
    );

    assert_eq!(data, expected_data);
    assert_eq!(data_2, expected_data_2);
}

#[test]
fn tx_methods_come_from_columns() {
    let conn = two_method_db();
    let methods = rex::get_all_tx_methods(&conn).unwrap();
    assert_eq!(methods, vec![s("test1"), s("test 2")]);
}

#[test]
fn sql_dates_pad_month_and_fix_day_bounds() {
    let (d1, d2) = rex::get_sql_dates(7, 0);
    assert_eq!(d1, "2022-07-01");
    assert_eq!(d2, "2022-07-31");
    let (d1, d2) = rex::get_sql_dates(11, 0);
    assert_eq!(d1, "2022-11-01");
    assert_eq!(d2, "2022-11-31");
}

#[test]
fn sql_dates_year_mapping_is_pinned() {
    // Offsets below nine land in the two-thousand-twenties.
    let (d1, _) = rex::get_sql_dates(1, 7);
    assert_eq!(d1, "2029-01-01");
    let (d1, _) = rex::get_sql_dates(1, 8);
    assert_eq!(d1, "20210-01-01");
    // From offset nine on, the offset is written as the year itself.
    let (d1, _) = rex::get_sql_dates(1, 9);
    assert_eq!(d1, "9-01-01");
}

#[test]
fn cents_format_is_exact() {
    assert_eq!(rex::format_cents(0), "0.00");
    assert_eq!(rex::format_cents(-10000), "-100.00");
    assert_eq!(rex::format_cents(10550), "105.50");
    assert_eq!(rex::format_cents(-7), "-0.07");
}

#[test]
fn cents_parse_is_exact() {
    assert_eq!(rex::parse_cents_exec("100.00"), Some(10000));
    assert_eq!(rex::parse_cents_exec("7"), Some(700));
    assert_eq!(rex::parse_cents_exec("1.5"), Some(150));
    assert_eq!(rex::parse_cents_exec("-0.07"), Some(-7));
    assert_eq!(rex::parse_cents_exec(""), None);
    assert_eq!(rex::parse_cents_exec("abc"), None);
    assert_eq!(rex::parse_cents_exec("1.234"), None);
    assert_eq!(rex::parse_cents_exec("1."), None);
}

#[test]
fn transfer_moves_amount_and_conserves_sum() {
    let conn = two_method_db();
    add_new_tx(
        &conn,
        "2022-07-10",
        "move",
        "test1 to test 2",
        "50.00",
        "Transfer",
    );
    let (rows, balances, ids) = rex::get_all_txs(&conn, 6, 0).unwrap();
    assert_eq!(rows[0][2], "test1 to test 2");
    assert_eq!(balances, vec![vec![s("-50.00"), s("50.00")]]);
    assert_eq!(ids, vec![s("1")]);
    // The two deltas from the zero baseline cancel.
    let a: f64 = balances[0][0].parse().unwrap();
    let b: f64 = balances[0][1].parse().unwrap();
    assert_eq!(a + b, 0.0);
}

#[test]
fn replaying_twice_changes_nothing() {
    let conn = two_method_db();
    add_new_tx(&conn, "2022-07-19", "t", "test1", "100.00", "Expense");
    add_new_tx(&conn, "2022-07-19", "t", "test 2", "25.00", "Income");
    let first = rex::get_all_txs(&conn, 6, 0).unwrap();
    let row_after_first: (String, String) = conn
        .query_row(
            "SELECT \"test1\", \"test 2\" FROM balance_all WHERE id_num = 7",
            [],
            |r| Ok((r.get(0)?, r.get(1)?)),
        )
        .unwrap();
    let second = rex::get_all_txs(&conn, 6, 0).unwrap();
    let row_after_second: (String, String) = conn
        .query_row(
            "SELECT \"test1\", \"test 2\" FROM balance_all WHERE id_num = 7",
            [],
            |r| Ok((r.get(0)?, r.get(1)?)),
        )
        .unwrap();
    assert_eq!(first, second);
    assert_eq!(row_after_first, (s("-100.00"), s("25.00")));
    assert_eq!(row_after_first, row_after_second);
}

#[test]
fn no_activity_month_writes_nothing() {
    let conn = two_method_db();
    add_new_tx(&conn, "2022-07-19", "t", "test1", "100.00", "Expense");
    let (rows, balances, ids) = rex::get_all_txs(&conn, 2, 0).unwrap();
    assert!(rows.is_empty());
    assert!(balances.is_empty());
    assert!(ids.is_empty());
    let slot_3: (String, String) = conn
        .query_row(
            "SELECT \"test1\", \"test 2\" FROM balance_all WHERE id_num = 3",
            [],
            |r| Ok((r.get(0)?, r.get(1)?)),
        )
        .unwrap();
    assert_eq!(slot_3, (s("0.00"), s("0.00")));
}

#[test]
fn baseline_carries_forward_through_quiet_months() {
    let conn = two_method_db();
    // Activity in May only; July starts from May's healed snapshot.
    add_new_tx(&conn, "2022-05-15", "t", "test1", "40.00", "Income");
    let _ = rex::get_all_txs(&conn, 4, 0).unwrap();
    add_new_tx(&conn, "2022-07-01", "t", "test1", "10.00", "Income");
    let (_, balances, _) = rex::get_all_txs(&conn, 6, 0).unwrap();
    assert_eq!(balances, vec![vec![s("50.00"), s("0.00")]]);
}

#[test]
fn empty_changes_names_every_account() {
    let conn = two_method_db();
    let row = rex::get_empty_changes(&conn).unwrap();
    assert_eq!(row, vec![s("Changes"), s("0.00"), s("0.00")]);
}

#[test]
fn changes_are_read_back_verbatim() {
    let conn = two_method_db();
    conn.execute(
        "INSERT INTO changes_all VALUES ('2022-07-19', 1, '-100.00', '0.00')",
        [],
    )
    .unwrap();
    let rows = rex::get_all_changes(&conn, 6, 0).unwrap();
    assert_eq!(rows, vec![vec![s("-100.00"), s("0.00")]]);
}

#[test]
fn last_balances_project_latest_row() {
    let conn = two_method_db();
    add_new_tx(&conn, "2022-07-19", "t", "test1", "100.00", "Expense");
    let _ = rex::get_all_txs(&conn, 6, 0).unwrap();
    let methods = rex::get_all_tx_methods(&conn).unwrap();
    let last = rex::get_last_balances(&conn, &methods).unwrap();
    // Rows past slot seven still hold zeros; the greatest id wins.
    assert_eq!(last, vec![s("0.00"), s("0.00")]);
    let id = rex::get_last_balance_id(&conn).unwrap();
    assert_eq!(id, 12);
}

#[test]
fn empty_snapshot_table_is_not_found() {
    let conn = Connection::open_in_memory().unwrap();
    conn.execute(
        "CREATE TABLE balance_all (id_num INTEGER PRIMARY KEY, \"test1\" TEXT)",
        [],
    )
    .unwrap();
    let methods = vec![s("test1")];
    assert!(matches!(
        rex::get_last_balances(&conn, &methods),
        Err(LedgerError::NotFound)
    ));
    assert!(matches!(
        rex::get_last_balance_id(&conn),
        Err(LedgerError::NotFound)
    ));
}

#[test]
fn malformed_amount_is_an_integrity_error() {
    let conn = two_method_db();
    add_new_tx(&conn, "2022-07-19", "t", "test1", "12x", "Expense");
    match rex::get_all_txs(&conn, 6, 0) {
        Err(LedgerError::Integrity(fault)) => {
            assert_eq!(fault.id_num, 1);
            assert_eq!(fault.field, "amount");
        },
        other => panic!("expected an integrity failure, got {:?}", other),
    }
}

#[test]
fn unknown_account_is_a_schema_error() {
    let conn = two_method_db();
    add_new_tx(&conn, "2022-07-19", "t", "test3", "10.00", "Expense");
    assert!(matches!(
        rex::get_all_txs(&conn, 6, 0),
        Err(LedgerError::Schema(_))
    ));
}

#[test]
fn unsplittable_transfer_is_an_integrity_error() {
    let conn = two_method_db();
    add_new_tx(&conn, "2022-07-19", "t", "test1 - test 2", "10.00", "Transfer");
    match rex::get_all_txs(&conn, 6, 0) {
        Err(LedgerError::Integrity(fault)) => {
            assert_eq!(fault.field, "method");
        },
        other => panic!("expected an integrity failure, got {:?}", other),
    }
}

#[test]
fn method_input_dedups_and_drops_known_names() {
    let existing = vec![s("Bank")];
    let picked = rex::parse_method_input("Bank, Cash, Cash, PayPal", &existing);
    assert_eq!(picked, vec![s("Cash"), s("PayPal")]);
    let none = rex::parse_method_input("Bank", &existing);
    assert!(none.is_empty());
}

#[test]
fn replay_month_is_pure_and_exact() {
    let methods = vec![s("a"), s("b")];
    let baseline = vec![1000i64, 0i64];
    let txs = vec![rex::TxRow {
        date: s("2022-07-19"),
        details: s("t"),
        method: s("a to b"),
        amount: s("2.50"),
        kind: s("Transfer"),
        id_num: 9,
    }];
    let out = rex::replay_month(&methods, &baseline, &txs).unwrap();
    assert_eq!(out.rows, vec![vec![s("19-07-2022"), s("t"), s("a to b"), s("2.50"), s("Transfer")]]);
    assert_eq!(out.balances, vec![vec![s("7.50"), s("2.50")]]);
    assert_eq!(out.ids, vec![s("9")]);
    assert_eq!(out.heal, Some(vec![s("7.50"), s("2.50")]));
}

#[test]
fn missing_table_is_a_connectivity_error() {
    let conn = Connection::open_in_memory().unwrap();
    assert!(matches!(
        rex::get_all_tx_methods(&conn),
        Err(LedgerError::Connectivity(_))
    ));
    assert!(matches!(
        rex::get_last_tx_id(&conn),
        Err(LedgerError::Connectivity(_))
    ));
}

#[test]
fn zero_slot_baseline_is_all_zero_without_reading() {
    let conn = Connection::open_in_memory().unwrap();
    // No snapshot rows at all: a read of any row would fail, so an Ok result
    // shows the all-zero baseline is returned immediately.
    conn.execute(
        "CREATE TABLE balance_all (id_num INTEGER PRIMARY KEY, \"test1\" TEXT, \"test 2\" TEXT)",
        [],
    )
    .unwrap();
    let methods = vec![s("test1"), s("test 2")];
    let baseline = rex::get_last_time_balance(&conn, 0, 0, &methods).unwrap();
    assert_eq!(baseline, vec![0, 0]);
}

#[test]
fn integrity_fault_names_the_first_bad_transaction() {
    let conn = two_method_db();
    add_new_tx(&conn, "2022-07-10", "t", "test1", "5.00", "Income");
    add_new_tx(&conn, "2022-07-11", "t", "test1", "bad", "Income");
    add_new_tx(&conn, "2022-07-12", "t", "test1", "also bad", "Income");
    match rex::get_all_txs(&conn, 6, 0) {
        Err(LedgerError::Integrity(fault)) => {
            assert_eq!(fault.id_num, 2);
            assert_eq!(fault.field, "amount");
        },
        other => panic!("expected an integrity failure, got {:?}", other),
    }
}
