use research_utility::sqlite_store::{
    after_failed_try, busy_retry_delay, decode_keys, delay_fits, load_all, upsert_step, Retry,
    SqliteBusyRetryConfig, SqliteCode, SqliteError, SqliteStoreKey, StoreFault, StoreStatement,
    UpsertStep,
};
use research_utility::sqlite_table_array_store::{
    append_row_index, append_step, are_names_decodable, get_keys, initial_row_index, is_canonical,
    load_or_init_table_sorted, load_table_sorted, load_table_with_indices, next_row_index,
    settle_conflict, table_key_text_from_table_name, table_name, AppendStep, InitOutcome,
    InitStep, InsertOutcome, SqliteTableArrayKey, TableFault, TableStatement, LIST_TABLES_SQL,
};
use std::collections::VecDeque;

fn s(x: &str) -> String {
    x.to_string()
}

fn error(message: &str, code: Option<SqliteCode>) -> SqliteError {
    SqliteError { message: s(message), code }
}

#[test]
fn retry_configurations() {
    assert_eq!(SqliteBusyRetryConfig::none(), None);
    let many = SqliteBusyRetryConfig::aggressive().unwrap();
    assert_eq!((many.max_retries, many.base_delay_ms), (12, 25));
    let single = SqliteBusyRetryConfig::or_single_try(None);
    assert_eq!((single.max_retries, single.base_delay_ms), (0, 25));
    assert_eq!(SqliteBusyRetryConfig::or_single_try(Some(many)), many);
}

#[test]
fn delays_double_eight_times() {
    let delays: Vec<u64> = (0..12).map(|attempt| busy_retry_delay(attempt, 25)).collect();
    assert_eq!(
        delays,
        vec![25, 50, 100, 200, 400, 800, 1600, 3200, 6400, 6400, 6400, 6400]
    );
    assert!(delay_fits(9, u64::MAX / 256));
    assert!(!delay_fits(9, u64::MAX / 256 + 1));
    assert!(delay_fits(0, u64::MAX));
}

#[test]
fn busy_errors_are_recognised() {
    assert!(error("Database IS locked", None).is_sqlite_busy_or_locked());
    assert!(error("x: database table is locked: t", None).is_sqlite_busy_or_locked());
    assert!(error("?", Some(SqliteCode::DatabaseBusy)).is_sqlite_busy_or_locked());
    assert!(error("?", Some(SqliteCode::DatabaseLocked)).is_sqlite_busy_or_locked());
    assert!(!error("disk full", Some(SqliteCode::Other)).is_sqlite_busy_or_locked());
    assert!(!error("disk full", None).is_sqlite_busy_or_locked());
}

#[test]
fn upserts_are_tried_again_while_the_database_is_busy() {
    let config = SqliteBusyRetryConfig { max_retries: 2, base_delay_ms: 10 };
    let busy = || Err(error("busy", Some(SqliteCode::DatabaseBusy)));
    assert!(matches!(upsert_step("k", 0, config, Ok(())), UpsertStep::Done));
    assert!(matches!(
        upsert_step("k", 0, config, busy()),
        UpsertStep::RetryAfter { delay_ms: 10, attempt: 1 }
    ));
    assert!(matches!(
        upsert_step("k", 1, config, busy()),
        UpsertStep::RetryAfter { delay_ms: 20, attempt: 2 }
    ));
    match upsert_step("k", 2, config, busy()) {
        UpsertStep::Failed(fault) => assert_eq!(
            fault.text("/db"),
            "Failed to upsert sqlite payload for key k in table store_entries at /db after 2 retries: busy"
        ),
        _ => panic!("expected a fault"),
    }
    match upsert_step("k", 0, config, Err(error("full", None))) {
        UpsertStep::Failed(fault) => assert!(fault.text("/db").ends_with("after 0 retries: full")),
        _ => panic!("expected a fault"),
    }
    assert_eq!(
        after_failed_try(&error("busy", Some(SqliteCode::DatabaseBusy)), 3, config),
        Retry::GiveUp
    );
}

#[test]
fn store_keys() {
    assert_eq!(SqliteStoreKey::to_key_text(&42_usize), "42");
    assert_eq!(SqliteStoreKey::to_key_text(&-7_i64), "-7");
    assert_eq!(SqliteStoreKey::to_key_text(&s("a b")), "a b");
    assert_eq!(<usize as SqliteStoreKey>::from_key_text("42"), Ok(42));
    assert_eq!(<i64 as SqliteStoreKey>::from_key_text("-7"), Ok(-7));
    assert_eq!(<String as SqliteStoreKey>::from_key_text("x"), Ok(s("x")));
    assert_eq!(
        <usize as SqliteStoreKey>::from_key_text("4x").unwrap_err(),
        "Failed to parse key text '4x' as usize: invalid digit found in string"
    );
    assert_eq!(
        <i64 as SqliteStoreKey>::from_key_text("").unwrap_err(),
        "Failed to parse key text '' as i64: cannot parse integer from empty string"
    );
    assert_eq!(decode_keys::<usize>(&vec![s("1"), s("2")]).unwrap(), vec![1, 2]);
    let fault = decode_keys::<i64>(&vec![s("1"), s("x"), s("")]).unwrap_err();
    assert_eq!(
        fault.text("/db"),
        "Failed to deserialize key from table store_entries in /db: \
         Failed to parse key text 'x' as i64: invalid digit found in string"
    );
}

#[test]
fn store_statements_and_faults() {
    assert_eq!(
        StoreStatement::SelectPayload.sql(),
        "SELECT payload_msgpack FROM store_entries WHERE id = ?1"
    );
    assert_eq!(StoreStatement::Clear.sql(), "DELETE FROM store_entries");
    assert_eq!(
        StoreStatement::SelectKeys.sql(),
        "SELECT id FROM store_entries ORDER BY id ASC"
    );
    assert_eq!(
        StoreFault::Open(s("e")).text("/db"),
        "Failed to open sqlite database /db for table store_entries: e"
    );
    assert_eq!(
        StoreFault::DatabaseExists.text("/db"),
        "Expected sqlite database /db to not exist when initializing table store_entries"
    );
    assert_eq!(
        StoreFault::Query { key: s("k"), error: s("e") }.text("/db"),
        "Failed to query key k from table store_entries at /db: e"
    );
}

#[test]
fn statements_run_on_sqlite() {
    let db = rusqlite::Connection::open_in_memory().unwrap();
    db.execute(&StoreStatement::CreateTable.sql(), []).unwrap();
    for (key, payload) in [("b", vec![1_u8]), ("a", vec![2]), ("b", vec![3])] {
        db.execute(&StoreStatement::Upsert.sql(), (key, payload)).unwrap();
    }
    let mut keys = db.prepare(&StoreStatement::SelectKeys.sql()).unwrap();
    let keys: Vec<String> =
        keys.query_map([], |row| row.get(0)).unwrap().collect::<Result<_, _>>().unwrap();
    assert_eq!(keys, vec!["a", "b"]);
    let payload: Vec<u8> = db
        .query_row(&StoreStatement::SelectPayload.sql(), ["b"], |row| row.get(0))
        .unwrap();
    assert_eq!(payload, vec![3]);
    let name = table_name("it's; DROP TABLE \"x\" é");
    db.execute(&TableStatement::Create.sql(&name), []).unwrap();
    for (index, payload) in [(1_i64, vec![7_u8]), (0, vec![8]), (1, vec![9])] {
        db.execute(&TableStatement::Insert.sql(&name), (index, payload)).unwrap();
    }
    let max: Option<i64> = db
        .query_row(&TableStatement::MaxRowIndex.sql(&name), [], |row| row.get(0))
        .unwrap();
    assert_eq!(next_row_index(max), 2);
    let mut rows = db.prepare(&TableStatement::SelectAll.sql(&name)).unwrap();
    let rows: VecDeque<(i64, Result<Vec<u8>, String>)> = rows
        .query_map([], |row| Ok((row.get(0)?, Ok(row.get(1)?))))
        .unwrap()
        .collect::<Result<_, _>>()
        .unwrap();
    assert_eq!(load_table_sorted(&name, rows).unwrap(), vec![vec![8], vec![7]]);
    let mut names = db.prepare(LIST_TABLES_SQL).unwrap();
    let names: Vec<String> =
        names.query_map([], |row| row.get(0)).unwrap().collect::<Result<_, _>>().unwrap();
    assert_eq!(get_keys::<String>(&names).unwrap(), vec![s("it's; DROP TABLE \"x\" é")]);
    db.execute(&TableStatement::Clear.sql(&name), []).unwrap();
    db.execute(&TableStatement::Drop.sql(&name), []).unwrap();
    db.execute(&StoreStatement::Clear.sql(), []).unwrap();
}

#[test]
fn table_names_and_keys() {
    assert_eq!(table_name("ab"), "table_6162");
    assert_eq!(table_name(""), "table_");
    for key in ["", "a", "run 7/é", "\u{10ffff}"] {
        let name = table_name(key);
        assert!(is_canonical(&name));
        assert_eq!(table_key_text_from_table_name(&name), Ok(s(key)));
    }
    assert_eq!(
        table_key_text_from_table_name("tables").unwrap_err(),
        "Unexpected table name format 'tables'"
    );
    assert_eq!(
        table_key_text_from_table_name("table_6").unwrap_err(),
        "Failed to decode key from table 'table_6': hex string has odd length: 1"
    );
    assert_eq!(
        table_key_text_from_table_name("table_zz").unwrap_err(),
        "Failed to decode key from table 'table_zz': invalid hex character 'z' at index 0"
    );
    let expected = String::from_utf8(vec![0xff]).unwrap_err().to_string();
    assert_eq!(
        table_key_text_from_table_name("table_ff").unwrap_err(),
        format!("Failed to decode UTF-8 key from table 'table_ff': {expected}")
    );
    assert!(!is_canonical("table_4A"));
    assert!(is_canonical("table_4a"));
    assert!(is_canonical("table_XX"));
}

#[test]
fn table_keys() {
    assert_eq!(SqliteTableArrayKey::to_table_key_text(&"x"), "x");
    assert_eq!(
        <&str as SqliteTableArrayKey>::from_table_key_text("x").unwrap_err(),
        "Cannot decode table key text into &str; use String instead"
    );
    assert_eq!(
        <usize as SqliteTableArrayKey>::from_table_key_text("-1").unwrap_err(),
        "Failed to parse usize key '-1': invalid digit found in string"
    );
    assert_eq!(<i64 as SqliteTableArrayKey>::from_table_key_text("-1"), Ok(-1));
    let names = vec![table_name("5"), table_name("12")];
    assert!(are_names_decodable::<usize>(&names));
    assert_eq!(get_keys::<usize>(&names).unwrap(), vec![5, 12]);
    let names = vec![table_name("5"), table_name("x"), s("table_4A")];
    assert!(are_names_decodable::<usize>(&names));
    assert_eq!(
        get_keys::<usize>(&names).unwrap_err().text("/db"),
        "Failed to parse key 'x' from table 'table_78' in /db: \
         Failed to parse usize key 'x': invalid digit found in string"
    );
    assert!(!are_names_decodable::<String>(&names));
    let names = vec![s("table_6")];
    assert_eq!(
        get_keys::<String>(&names).unwrap_err().text("/db"),
        "Failed to decode key from table 'table_6' in /db: \
         Failed to decode key from table 'table_6': hex string has odd length: 1"
    );
}

#[test]
fn row_indices() {
    assert_eq!(next_row_index(None), 0);
    assert_eq!(next_row_index(Some(-3)), -2);
    assert_eq!(initial_row_index("t", 5).unwrap(), 5);
    assert_eq!(
        initial_row_index("t", usize::MAX).unwrap_err().text("/db"),
        "Row index is too large for table t in /db"
    );
    for n in [0_usize, 7, i64::MAX as usize, i64::MAX as usize + 1, usize::MAX] {
        assert_eq!(append_row_index(n), n as i64);
    }
}

#[test]
fn appends_settle_conflicts() {
    assert!(matches!(append_step("t", 0, InsertOutcome::Rows(1)), AppendStep::Done));
    assert!(matches!(append_step("t", 0, InsertOutcome::Rows(0)), AppendStep::LoadExisting));
    let busy = || InsertOutcome::Failed(error("database is locked", None));
    assert!(matches!(
        append_step("t", 11, busy()),
        AppendStep::RetryAfter { delay_ms: 6400, attempt: 12 }
    ));
    match append_step("t", 12, busy()) {
        AppendStep::Failed(fault) => assert_eq!(
            fault.text("/db"),
            "Failed to append sqlite payload into table t at /db after 12 retries: database is locked"
        ),
        _ => panic!("expected a fault"),
    }
    assert!(settle_conflict("t", 3, &vec![1, 2], Some(vec![1, 2])).is_ok());
    assert_eq!(
        settle_conflict("t", 3, &vec![1, 2], Some(vec![1])).unwrap_err().text("/db"),
        "Conflicting payload at row_index 3 for table t in /db"
    );
    assert_eq!(
        settle_conflict("t", -3, &vec![1, 2], None).unwrap_err().text("/db"),
        "Conflict insert at row_index -3 for table t in /db returned no row"
    );
}

#[test]
fn rows_are_loaded_in_order() {
    let rows: VecDeque<(i64, Result<&str, String>)> =
        vec![(3, Ok("c")), (1, Ok("a")), (3, Ok("d")), (2, Ok("b")), (1, Ok("A"))].into();
    assert_eq!(
        load_table_with_indices("t", rows.clone()).unwrap(),
        vec![(1, "a"), (1, "A"), (2, "b"), (3, "c"), (3, "d")]
    );
    assert_eq!(load_table_sorted("t", rows).unwrap(), vec!["a", "A", "b", "c", "d"]);
    let rows: VecDeque<(i64, Result<u8, String>)> =
        vec![(0, Ok(1)), (-2, Err(s("x"))), (1, Err(s("y")))].into();
    assert_eq!(
        load_table_with_indices("t", rows).unwrap_err().text("/db"),
        "Negative row index -2 found in table t in /db"
    );
    let rows: VecDeque<(i64, Result<u8, String>)> = vec![(0, Ok(1)), (1, Err(s("y")))].into();
    assert_eq!(
        load_table_sorted("t", rows).unwrap_err().text("/db"),
        "Failed to deserialize row payload in /db: y"
    );
    assert_eq!(
        TableFault::Scan { table: s("t"), error: s("e") }.text("/db"),
        "Failed to execute ordered scan query for table t in /db: e"
    );
}

#[test]
fn all_rows_load_or_the_first_bad_one_is_told() {
    let rows: VecDeque<Result<u8, String>> = VecDeque::from(vec![Ok(3), Ok(1), Ok(2)]);
    assert_eq!(load_all(rows).unwrap(), vec![3, 1, 2]);
    assert_eq!(load_all::<u8>(VecDeque::new()).unwrap(), Vec::<u8>::new());
    let rows: VecDeque<Result<u8, String>> =
        VecDeque::from(vec![Ok(3), Err(s("first")), Ok(2), Err(s("second"))]);
    assert_eq!(
        load_all(rows).unwrap_err().text("/db"),
        "Failed to deserialize row payload for table store_entries in /db: first"
    );
}

#[test]
fn a_table_is_made_only_if_it_is_missing() {
    for last in [InitOutcome::Looked, InitOutcome::NextRow(Some(3)), InitOutcome::Created(Ok(()))] {
        assert!(matches!(load_or_init_table_sorted("t", true, last), InitStep::Load));
    }
    let next = |last| load_or_init_table_sorted("t", false, last);
    assert!(matches!(next(InitOutcome::Looked), InitStep::CreateTable));
    assert!(matches!(next(InitOutcome::Created(Ok(()))), InitStep::MakeRows));
    assert!(matches!(next(InitOutcome::NextRow(Some(3))), InitStep::AppendRow(3)));
    assert!(matches!(next(InitOutcome::Appended(Ok(()))), InitStep::TakeRow));
    assert!(matches!(next(InitOutcome::NextRow(None)), InitStep::Load));
    let text = |step| match step {
        InitStep::Failed(fault) => TableFault::text(&fault, "/db"),
        _ => s(""),
    };
    assert_eq!(
        text(next(InitOutcome::NextRow(Some(usize::MAX)))),
        "Row index is too large for table t in /db"
    );
    let fault = || TableFault::Serialize(s("bad"));
    let words = fault().text("/db");
    assert_eq!(text(next(InitOutcome::Created(Err(fault())))), words);
    assert_eq!(text(next(InitOutcome::Appended(Err(fault())))), words);
}

#[test]
fn rows_of_a_new_table_load_in_order() {
    let made = [(5_usize, "five"), (0, "zero"), (2, "two")];
    let read: VecDeque<(i64, Result<&str, String>)> =
        made.iter().map(|(index, value)| (*index as i64, Ok(*value))).collect();
    assert_eq!(load_table_sorted("t", read).unwrap(), vec!["zero", "two", "five"]);
}

#[test]
fn an_appended_value_loads_last_and_touches_no_other_key() {
    let db = rusqlite::Connection::open_in_memory().unwrap();
    let load = |key: &str| -> Vec<Vec<u8>> {
        let name = table_name(key);
        let mut rows = db.prepare(&TableStatement::SelectAll.sql(&name)).unwrap();
        let rows: VecDeque<(i64, Result<Vec<u8>, String>)> = rows
            .query_map([], |row| Ok((row.get(0)?, Ok(row.get(1)?))))
            .unwrap()
            .collect::<Result<_, _>>()
            .unwrap();
        load_table_sorted(&name, rows).unwrap()
    };
    let append = |key: &str, payload: Vec<u8>| {
        let name = table_name(key);
        db.execute(&TableStatement::Create.sql(&name), []).unwrap();
        let largest: Option<i64> = db
            .query_row(&TableStatement::MaxRowIndex.sql(&name), [], |row| row.get(0))
            .unwrap();
        db.execute(&TableStatement::Insert.sql(&name), (next_row_index(largest), payload))
            .unwrap();
    };
    append("other", vec![9]);
    let mut expected: Vec<Vec<u8>> = Vec::new();
    for payload in [vec![3], vec![1], vec![3], vec![]] {
        append("key", payload.clone());
        expected.push(payload);
        assert_eq!(load("key"), expected);
        assert_eq!(load("other"), vec![vec![9]]);
    }
}

#[test]
fn keys_of_all_tables_come_once_in_the_order_of_their_texts() {
    let db = rusqlite::Connection::open_in_memory().unwrap();
    for key in [2_i64, -7, 10, 100, 1, 10] {
        let name = table_name(&SqliteTableArrayKey::to_table_key_text(&key));
        db.execute(&TableStatement::Create.sql(&name), []).unwrap();
    }
    let mut names = db.prepare(LIST_TABLES_SQL).unwrap();
    let names: Vec<String> =
        names.query_map([], |row| row.get(0)).unwrap().collect::<Result<_, _>>().unwrap();
    assert!(are_names_decodable::<i64>(&names));
    assert_eq!(get_keys::<i64>(&names).unwrap(), vec![-7, 1, 10, 100, 2]);
    let texts = get_keys::<String>(&names).unwrap();
    assert_eq!(texts, vec![s("-7"), s("1"), s("10"), s("100"), s("2")]);
}
