use qxevent::datetime::QxDateTime;
use qxevent::dbvalue::{DbValue, Record};
use qxevent::error::Error;
use qxevent::sqlgen::{
    create_record_sql, delete_record_sql, list_records_sql, process_record_params,
    read_record_sql, update_record_sql, convert_dbvalue_to_sql, SqlCommand, SqlValue,
};

fn test_dt() -> QxDateTime {
    QxDateTime::new(2025, 7, 4, 10, 20, 30, 400, 0).unwrap()
}

fn to_rusqlite(v: &SqlValue) -> rusqlite::types::Value {
    match v {
        SqlValue::Null => rusqlite::types::Value::Null,
        SqlValue::Integer(i) => rusqlite::types::Value::Integer(*i),
        SqlValue::Real(bits) => rusqlite::types::Value::Real(f64::from_bits(*bits)),
        SqlValue::Text(s) => rusqlite::types::Value::Text(s.clone()),
        SqlValue::Blob(b) => rusqlite::types::Value::Blob(b.clone()),
    }
}

fn param_refs<'a>(
    params: &'a [(String, rusqlite::types::Value)],
) -> Vec<(&'a str, &'a dyn rusqlite::ToSql)> {
    params
        .iter()
        .map(|(name, val)| (name.as_str(), val as &dyn rusqlite::ToSql))
        .collect()
}

fn exec_cmd(conn: &rusqlite::Connection, cmd: &SqlCommand) -> rusqlite::Result<usize> {
    let params: Vec<(String, rusqlite::types::Value)> = cmd
        .params
        .iter()
        .map(|(n, v)| (n.clone(), to_rusqlite(v)))
        .collect();
    let refs = param_refs(&params);
    conn.execute(&cmd.sql, &refs[..])
}

fn query_one_row(
    conn: &rusqlite::Connection,
    cmd: &SqlCommand,
) -> Option<Vec<rusqlite::types::Value>> {
    let params: Vec<(String, rusqlite::types::Value)> = cmd
        .params
        .iter()
        .map(|(n, v)| (n.clone(), to_rusqlite(v)))
        .collect();
    let refs = param_refs(&params);
    let mut stmt = conn.prepare(&cmd.sql).unwrap();
    let n = stmt.column_count();
    let mut rows = stmt.query(&refs[..]).unwrap();
    match rows.next().unwrap() {
        Some(row) => {
            let mut out = Vec::new();
            for i in 0..n {
                out.push(row.get::<_, rusqlite::types::Value>(i).unwrap());
            }
            Some(out)
        }
        None => None,
    }
}

fn insert_returning_id(conn: &rusqlite::Connection, cmd: &SqlCommand) -> i64 {
    let params: Vec<(String, rusqlite::types::Value)> = cmd
        .params
        .iter()
        .map(|(n, v)| (n.clone(), to_rusqlite(v)))
        .collect();
    let refs = param_refs(&params);
    conn.query_row(&cmd.sql, &refs[..], |row| row.get::<_, i64>(0))
        .unwrap()
}

fn test_conn() -> rusqlite::Connection {
    let conn = rusqlite::Connection::open_in_memory().unwrap();
    conn.execute(
        "CREATE TABLE test_table (id INTEGER PRIMARY KEY, name TEXT, value INTEGER, created_at TEXT)",
        [],
    )
    .unwrap();
    conn
}

#[test]
fn test_convert_dbvalue_to_sql() {
    let result = convert_dbvalue_to_sql("test", &DbValue::String("hello".to_string()));
    assert!(result.is_ok());

    let result = convert_dbvalue_to_sql("test", &DbValue::Int(42));
    assert!(result.is_ok());

    let result = convert_dbvalue_to_sql("test", &DbValue::DateTime(test_dt()));
    assert!(result.is_ok());

    let result = convert_dbvalue_to_sql("test", &DbValue::Null);
    assert!(result.is_ok());

    let result = convert_dbvalue_to_sql("test", &DbValue::Blob(vec![1, 2, 3]));
    assert!(result.is_ok());
}

#[test]
fn test_process_record_params() {
    let record: Record = vec![
        ("name".to_string(), DbValue::String("test".to_string())),
        ("id".to_string(), DbValue::Int(1)),
        ("null_field".to_string(), DbValue::Null),
    ];

    let result = process_record_params(&record);
    assert!(result.is_ok());

    let params = result.unwrap();
    assert_eq!(params.len(), 3);

    let param_names: Vec<String> = params.iter().map(|(name, _)| name.clone()).collect();
    assert!(param_names.contains(&":name".to_string()));
    assert!(param_names.contains(&":id".to_string()));
    assert!(param_names.contains(&":null_field".to_string()));
}

#[test]
fn test_process_record_params_empty() {
    let record: Record = vec![];
    let result = process_record_params(&record);
    assert!(result.is_ok());
    let params = result.unwrap();
    assert!(params.is_empty());
}

#[test]
fn test_convert_rejects_malformed_timestamp() {
    let bad = QxDateTime {
        year: 2023,
        month: 2,
        day: 30,
        hour: 0,
        minute: 0,
        second: 0,
        msec: 0,
        offset_min: 0,
    };
    let r = convert_dbvalue_to_sql("when", &DbValue::DateTime(bad));
    match r {
        Err(Error::BadValue(k)) => assert_eq!(k, "when"),
        _ => panic!("a timestamp no calendar holds must not convert"),
    }
}

#[test]
fn test_create_empty_record_fails_without_statement() {
    let rec: Record = vec![];
    assert!(matches!(create_record_sql("test_table", &rec), Err(Error::EmptyRecord)));
}

#[test]
fn test_update_with_only_id_fails() {
    let rec: Record = vec![("id".to_string(), DbValue::Int(7))];
    assert!(matches!(update_record_sql("test_table", 7, &rec), Err(Error::EmptyRecord)));
}

#[test]
fn test_identifiers_are_allowlisted() {
    let rec: Record = vec![("name".to_string(), DbValue::Int(1))];
    match create_record_sql("test_table; DROP TABLE x", &rec) {
        Err(Error::BadIdentifier(s)) => assert_eq!(s, "test_table; DROP TABLE x"),
        _ => panic!("an injectable table name must be refused"),
    }
    let rec: Record = vec![("na me".to_string(), DbValue::Int(1))];
    match create_record_sql("test_table", &rec) {
        Err(Error::BadIdentifier(s)) => assert_eq!(s, "na me"),
        _ => panic!("an injectable column name must be refused"),
    }
    assert!(matches!(delete_record_sql("", 1), Err(Error::BadIdentifier(_))));
}

#[test]
fn test_generated_statement_texts() {
    let rec: Record = vec![
        ("name".to_string(), DbValue::String("x".to_string())),
        ("value".to_string(), DbValue::Int(3)),
    ];
    let c = create_record_sql("test_table", &rec).unwrap();
    assert_eq!(
        c.sql,
        "INSERT INTO test_table (name, value) VALUES (:name, :value) RETURNING id"
    );
    let u = update_record_sql("test_table", 9, &rec).unwrap();
    assert_eq!(u.sql, "UPDATE test_table SET name = :name, value = :value WHERE id = :id");
    assert_eq!(u.params.last().unwrap().0, ":id");
    let d = delete_record_sql("test_table", 9).unwrap();
    assert_eq!(d.sql, "DELETE FROM test_table WHERE id = :id");
    let r = read_record_sql("test_table", 9, None).unwrap();
    assert_eq!(r.sql, "SELECT * FROM test_table WHERE id = :id");
    let fields = vec!["id".to_string(), "name".to_string()];
    let l = list_records_sql("test_table", Some(&fields), Some(5), Some(10)).unwrap();
    assert_eq!(
        l.sql,
        "SELECT id, name FROM test_table WHERE id > :ids_above ORDER BY id LIMIT :limit"
    );
}

#[test]
fn test_update_skips_id_in_set_clause() {
    let rec: Record = vec![
        ("id".to_string(), DbValue::Int(99)),
        ("name".to_string(), DbValue::String("x".to_string())),
    ];
    let u = update_record_sql("test_table", 9, &rec).unwrap();
    assert_eq!(u.sql, "UPDATE test_table SET name = :name WHERE id = :id");
    // The id parameter is the WHERE key, never the record's id field.
    let id_param = u.params.iter().find(|p| p.0 == ":id").unwrap();
    match id_param.1 {
        SqlValue::Integer(i) => assert_eq!(i, 9),
        _ => panic!("the id binds as an integer"),
    }
}

#[test]
fn test_update_then_read_round_trip() {
    let conn = test_conn();
    let rec: Record = vec![
        ("name".to_string(), DbValue::String("before".to_string())),
        ("value".to_string(), DbValue::Int(1)),
    ];
    let id = insert_returning_id(&conn, &create_record_sql("test_table", &rec).unwrap());
    let upd: Record = vec![("name".to_string(), DbValue::String("x".to_string()))];
    let n = exec_cmd(&conn, &update_record_sql("test_table", id, &upd).unwrap()).unwrap();
    assert_eq!(n, 1);
    let fields = vec!["name".to_string()];
    let row = query_one_row(
        &conn,
        &read_record_sql("test_table", id, Some(&fields)).unwrap(),
    )
    .unwrap();
    assert_eq!(row[0], rusqlite::types::Value::Text("x".to_string()));
}

#[test]
fn test_delete_then_read_finds_nothing() {
    let conn = test_conn();
    let rec: Record = vec![("name".to_string(), DbValue::String("gone".to_string()))];
    let id = insert_returning_id(&conn, &create_record_sql("test_table", &rec).unwrap());
    let n = exec_cmd(&conn, &delete_record_sql("test_table", id).unwrap()).unwrap();
    assert_eq!(n, 1);
    assert!(query_one_row(&conn, &read_record_sql("test_table", id, None).unwrap()).is_none());
}

#[test]
fn test_scalar_round_trip_every_tag() {
    let conn = rusqlite::Connection::open_in_memory().unwrap();
    conn.execute("CREATE TABLE vals (id INTEGER PRIMARY KEY, v)", []).unwrap();
    let fields = vec!["v".to_string()];
    let cases: Vec<(DbValue, rusqlite::types::Value)> = vec![
        (DbValue::Null, rusqlite::types::Value::Null),
        // A boolean is persisted as the integer 0 or 1.
        (DbValue::Bool(true), rusqlite::types::Value::Integer(1)),
        (DbValue::Bool(false), rusqlite::types::Value::Integer(0)),
        (DbValue::Int(-42), rusqlite::types::Value::Integer(-42)),
        (
            DbValue::Double(2.5f64.to_bits()),
            rusqlite::types::Value::Real(2.5),
        ),
        (
            DbValue::String("héllo".to_string()),
            rusqlite::types::Value::Text("héllo".to_string()),
        ),
        // A timestamp is persisted at the precision of its RFC 3339 text.
        (
            DbValue::DateTime(test_dt()),
            rusqlite::types::Value::Text("2025-07-04T10:20:30.400+00:00".to_string()),
        ),
        (
            DbValue::Blob(vec![0, 1, 2, 254, 255]),
            rusqlite::types::Value::Blob(vec![0, 1, 2, 254, 255]),
        ),
    ];
    for (v, expected) in cases {
        let rec: Record = vec![("v".to_string(), v)];
        let id = insert_returning_id(&conn, &create_record_sql("vals", &rec).unwrap());
        let row = query_one_row(&conn, &read_record_sql("vals", id, Some(&fields)).unwrap())
            .unwrap();
        assert_eq!(row[0], expected);
    }
}

#[test]
fn test_raw_params_bind_into_caller_sql() {
    let conn = test_conn();
    let rec: Record = vec![
        ("name".to_string(), DbValue::String("raw".to_string())),
        ("value".to_string(), DbValue::Int(7)),
    ];
    let params: Vec<(String, rusqlite::types::Value)> = process_record_params(&rec)
        .unwrap()
        .iter()
        .map(|(n, v)| (n.clone(), to_rusqlite(v)))
        .collect();
    let refs = param_refs(&params);
    let n = conn
        .execute(
            "INSERT INTO test_table (name, value) VALUES (:name, :value)",
            &refs[..],
        )
        .unwrap();
    assert_eq!(n, 1);
    let got: i64 = conn
        .query_row("SELECT value FROM test_table WHERE name = 'raw'", [], |r| r.get(0))
        .unwrap();
    assert_eq!(got, 7);
}
