use queryable::rows::{finish_many, finish_one, FetchError};
use queryable::schema::{Field, KeyRole, Schema, ValueKind};
use queryable::sqltext::PlaceholderStyle;
use queryable::statement::{build_fetch, build_insert, build_update, BuiltStatement, Filter};
use queryable::value::Value;

fn field(name: &str, kind: ValueKind, nullable: bool, role: KeyRole) -> Field {
    Field { name: name.to_string(), kind, nullable, role }
}

fn text(s: &str) -> Value {
    Value::Text(s.to_string())
}

fn to_sql(v: &Value) -> rusqlite::types::Value {
    match v {
        Value::Null => rusqlite::types::Value::Null,
        Value::Integer(i) => rusqlite::types::Value::Integer(*i),
        Value::Text(s) => rusqlite::types::Value::Text(s.clone()),
    }
}

fn from_sql(v: rusqlite::types::Value) -> Value {
    match v {
        rusqlite::types::Value::Null => Value::Null,
        rusqlite::types::Value::Integer(i) => Value::Integer(i),
        rusqlite::types::Value::Text(s) => Value::Text(s),
        other => panic!("unexpected column value {:?}", other),
    }
}

fn execute(conn: &rusqlite::Connection, st: &BuiltStatement) -> usize {
    conn.execute(&st.sql, rusqlite::params_from_iter(st.params.iter().map(to_sql))).unwrap()
}

fn query(conn: &rusqlite::Connection, st: &BuiltStatement) -> Vec<Vec<Value>> {
    let mut stmt = conn.prepare(&st.sql).unwrap();
    let width = stmt.column_count();
    let mut rows = stmt.query(rusqlite::params_from_iter(st.params.iter().map(to_sql))).unwrap();
    let mut out = Vec::new();
    while let Some(row) = rows.next().unwrap() {
        let mut values = Vec::new();
        for i in 0..width {
            values.push(from_sql(row.get::<usize, rusqlite::types::Value>(i).unwrap()));
        }
        out.push(values);
    }
    out
}

fn get(conn: &rusqlite::Connection, schema: &Schema, filter: &Filter, style: PlaceholderStyle) -> Result<Vec<Value>, FetchError> {
    finish_one(schema, query(conn, &build_fetch(schema, filter, style)))
}

fn get_many(conn: &rusqlite::Connection, schema: &Schema, filter: &Filter, style: PlaceholderStyle) -> Result<Vec<Vec<Value>>, FetchError> {
    finish_many(schema, query(conn, &build_fetch(schema, filter, style)))
}

fn test_model() -> (rusqlite::Connection, Schema) {
    let conn = rusqlite::Connection::open_in_memory().unwrap();
    conn.execute("CREATE TABLE TestModel (id INT PRIMARY KEY, comments TEXT, test_val TEXT NOT NULL);", []).unwrap();
    let schema = Schema::new(
        "TestModel".to_string(),
        vec![
            field("id", ValueKind::Integer, false, KeyRole::Plain),
            field("comments", ValueKind::Text, true, KeyRole::Plain),
            field("test_val", ValueKind::Text, false, KeyRole::Plain),
        ],
        true,
    )
    .unwrap();
    (conn, schema)
}

fn libsql_test() -> (rusqlite::Connection, Schema) {
    let conn = rusqlite::Connection::open_in_memory().unwrap();
    conn.execute("CREATE TABLE LibSqlTest(id INT PRIMARY KEY, test TEXT NOT NULL);", []).unwrap();
    let schema = Schema::new(
        "LibSqlTest".to_string(),
        vec![
            field("id", ValueKind::Integer, false, KeyRole::Primary),
            field("test", ValueKind::Text, false, KeyRole::Plain),
        ],
        false,
    )
    .unwrap();
    (conn, schema)
}

#[test]
fn pooled_get() {
    let (conn, schema) = test_model();
    conn.execute("INSERT INTO TestModel (id, comments, test_val) VALUES (1, 'hello', 'test_val'), (2, NULL, 'test2');", []).unwrap();
    let mut req = Filter::absent(3);
    req.set(0, Value::Integer(1));
    let m = get(&conn, &schema, &req, PlaceholderStyle::Numbered).unwrap();
    assert_eq!(m[0], Value::Integer(1));
    assert_eq!(m[1], text("hello"));
    assert_eq!(m[2], text("test_val"));
}

#[test]
fn pooled_get_many() {
    let (conn, schema) = test_model();
    conn.execute("INSERT INTO TestModel (id, comments, test_val) VALUES (1, 'hello', 'test_val'), (2, NULL, 'test2');", []).unwrap();
    let models = get_many(&conn, &schema, &Filter::absent(3), PlaceholderStyle::Numbered).unwrap();
    let first = models.first().expect("No first element in test_models");
    assert_eq!(first[0], Value::Integer(1));
    assert_eq!(first[1], text("hello"));
    assert_eq!(first[2], text("test_val"));
    let second = models.last().expect("No second element in test_models");
    assert_eq!(second[0], Value::Integer(2));
    assert_eq!(second[1], Value::Null);
    assert_eq!(second[2], text("test2"));
}

#[test]
fn pooled_add() {
    let (conn, schema) = test_model();
    let record = vec![Value::Integer(1), text("This is a comment"), text("test_val")];
    assert_eq!(execute(&conn, &build_insert(&schema, &record, PlaceholderStyle::Numbered)), 1);
    let (id, comments, test_val): (i64, Option<String>, String) = conn
        .query_row("SELECT * FROM TestModel", [], |row| Ok((row.get("id")?, row.get("comments")?, row.get("test_val")?)))
        .unwrap();
    assert_eq!(id, 1);
    assert_eq!(comments, Some("This is a comment".to_string()));
    assert_eq!(test_val, "test_val".to_string());
}

#[test]
fn pooled_update() {
    let (conn, schema) = test_model();
    conn.execute("INSERT INTO TestModel (id, comments, test_val) VALUES (1, 'This is a comment', 'test_val');", []).unwrap();
    let record = vec![Value::Integer(1), text("comments"), text("new_test_val")];
    let st = build_update(&schema, &record, PlaceholderStyle::Numbered).unwrap();
    assert_eq!(execute(&conn, &st), 1);
    let (id, comments, test_val): (i64, Option<String>, String) = conn
        .query_row("SELECT * FROM TestModel", [], |row| Ok((row.get("id")?, row.get("comments")?, row.get("test_val")?)))
        .unwrap();
    assert_eq!(id, 1);
    assert_eq!(comments, Some("comments".to_string()));
    assert_eq!(test_val, "new_test_val".to_string());
}

#[test]
fn libsql_get() {
    let (conn, schema) = libsql_test();
    conn.execute("INSERT INTO LibSqlTest (id, test) VALUES (1, \"test\");", []).unwrap();
    let mut req = Filter::absent(2);
    req.set(0, Value::Integer(1));
    let s = get(&conn, &schema, &req, PlaceholderStyle::Sequential).unwrap();
    assert!(s[0] == Value::Integer(1));
    assert!(s[1] == text("test"));
}

#[test]
fn libsql_get_many() {
    let (conn, schema) = libsql_test();
    conn.execute("INSERT INTO LibSqlTest (id, test) VALUES (1, \"test\"), (2, \"second_test\");", []).unwrap();
    let structs = get_many(&conn, &schema, &Filter::absent(2), PlaceholderStyle::Sequential).unwrap();
    let first = structs.first().expect("No rows");
    let second = structs.last().expect("Only one row");
    assert!(first[0] == Value::Integer(1));
    assert!(first[1] == text("test"));
    assert!(second[0] == Value::Integer(2));
    assert!(second[1] == text("second_test"));
}

#[test]
fn libsql_add() {
    let (conn, schema) = libsql_test();
    let record = vec![Value::Integer(1), text("TEST")];
    let result = execute(&conn, &build_insert(&schema, &record, PlaceholderStyle::Sequential));
    assert!(result == 1);
    let mut req = Filter::absent(2);
    req.set(0, Value::Integer(1));
    let confirm = get(&conn, &schema, &req, PlaceholderStyle::Sequential).unwrap();
    assert!(confirm[1] == text("TEST"));
}

#[test]
fn add_autoincrement() {
    let conn = rusqlite::Connection::open_in_memory().unwrap();
    conn.execute("CREATE TABLE AutoIncrementTest(id INTEGER PRIMARY KEY AUTOINCREMENT, test TEXT NOT NULL);", []).unwrap();
    let schema = Schema::new(
        "AutoIncrementTest".to_string(),
        vec![
            field("id", ValueKind::Integer, false, KeyRole::PrimaryAutoincrement),
            field("test", ValueKind::Text, false, KeyRole::Plain),
        ],
        false,
    )
    .unwrap();
    let record = vec![Value::Integer(0), text("test")];
    let result = execute(&conn, &build_insert(&schema, &record, PlaceholderStyle::Sequential));
    assert!(result == 1);
    let mut req = Filter::absent(2);
    req.set(0, Value::Integer(1));
    let confirm = get(&conn, &schema, &req, PlaceholderStyle::Sequential).unwrap();
    assert!(confirm[1] == text("test"));
    assert_eq!(confirm[0], Value::Integer(1));
}

#[test]
fn libsql_update() {
    let (conn, schema) = libsql_test();
    conn.execute("INSERT INTO LibSqlTest(id, test) VALUES (1, \"test\");", []).unwrap();
    let record = vec![Value::Integer(1), text("THE QUICK BROWN FOX")];
    let result = execute(&conn, &build_update(&schema, &record, PlaceholderStyle::Sequential).unwrap());
    assert!(result == 1);
    let mut req = Filter::absent(2);
    req.set(0, Value::Integer(1));
    let confirm = get(&conn, &schema, &req, PlaceholderStyle::Sequential).unwrap();
    assert!(confirm[1] == text("THE QUICK BROWN FOX"));
}

#[test]
fn complex_update() {
    let conn = rusqlite::Connection::open_in_memory().unwrap();
    conn.execute("CREATE TABLE ComplexUpdateTest(id1 INT, id2 INT, test TEXT NOT NULL, PRIMARY KEY(id1, id2));", []).unwrap();
    conn.execute("INSERT INTO ComplexUpdateTest(id1, id2, test) VALUES (1, 1, \"test\");", []).unwrap();
    conn.execute("INSERT INTO ComplexUpdateTest(id1, id2, test) VALUES (2, 2, \"test\");", []).unwrap();
    let schema = Schema::new(
        "ComplexUpdateTest".to_string(),
        vec![
            field("id1", ValueKind::Integer, false, KeyRole::Primary),
            field("id2", ValueKind::Integer, false, KeyRole::Primary),
            field("test", ValueKind::Text, false, KeyRole::Plain),
        ],
        false,
    )
    .unwrap();
    let record = vec![Value::Integer(1), Value::Integer(1), text("THE QUICK BROWN FOX")];
    let result = execute(&conn, &build_update(&schema, &record, PlaceholderStyle::Sequential).unwrap());
    assert!(result == 1);
    let mut req = Filter::absent(3);
    req.set(0, Value::Integer(1));
    req.set(1, Value::Integer(1));
    let confirm = get(&conn, &schema, &req, PlaceholderStyle::Sequential).unwrap();
    assert!(confirm[2] == text("THE QUICK BROWN FOX"));
    let mut other = Filter::absent(3);
    other.set(0, Value::Integer(2));
    other.set(1, Value::Integer(2));
    let untouched = get(&conn, &schema, &other, PlaceholderStyle::Sequential).unwrap();
    assert_eq!(untouched[2], text("test"));
}

#[test]
fn get_matching_nothing_is_not_found() {
    let (conn, schema) = libsql_test();
    conn.execute("INSERT INTO LibSqlTest (id, test) VALUES (1, 'test'), (2, 'second_test');", []).unwrap();
    let mut req = Filter::absent(2);
    req.set(0, Value::Integer(3));
    assert_eq!(get(&conn, &schema, &req, PlaceholderStyle::Numbered).unwrap_err(), FetchError::NotFound);
}

#[test]
fn get_many_twice_returns_same_rows() {
    let (conn, schema) = libsql_test();
    conn.execute("INSERT INTO LibSqlTest (id, test) VALUES (1, 'test'), (2, 'second_test');", []).unwrap();
    let first = get_many(&conn, &schema, &Filter::absent(2), PlaceholderStyle::Numbered).unwrap();
    let second = get_many(&conn, &schema, &Filter::absent(2), PlaceholderStyle::Numbered).unwrap();
    assert_eq!(first.len(), 2);
    assert_eq!(first, second);
}

#[test]
fn add_then_get_by_key_round_trips() {
    let conn = rusqlite::Connection::open_in_memory().unwrap();
    conn.execute("CREATE TABLE ComplexUpdateTest(id1 INT, id2 INT, test TEXT NOT NULL, PRIMARY KEY(id1, id2));", []).unwrap();
    let schema = Schema::new(
        "ComplexUpdateTest".to_string(),
        vec![
            field("id1", ValueKind::Integer, false, KeyRole::Primary),
            field("id2", ValueKind::Integer, false, KeyRole::Primary),
            field("test", ValueKind::Text, false, KeyRole::Plain),
        ],
        false,
    )
    .unwrap();
    let a = vec![Value::Integer(1), Value::Integer(2), text("a")];
    let b = vec![Value::Integer(1), Value::Integer(3), text("b")];
    execute(&conn, &build_insert(&schema, &a, PlaceholderStyle::Numbered));
    execute(&conn, &build_insert(&schema, &b, PlaceholderStyle::Numbered));
    let key = queryable::statement::key_filter(&schema, &a);
    assert_eq!(get(&conn, &schema, &key, PlaceholderStyle::Numbered).unwrap(), a);
}
