use sql_engine::engine::execute_sql;
use sql_engine::storage::Storage;

fn run(db: &mut Storage, sql: &str) -> String {
    execute_sql(sql, db)
}

#[test]
fn select_integer_literal() {
    let mut db = Storage::new();
    assert_eq!(run(&mut db, "SELECT 1"), "1\n\n");
}

#[test]
fn select_text_literal() {
    let mut db = Storage::new();
    assert_eq!(run(&mut db, "SELECT 'hello'"), "hello\n\n");
}

#[test]
fn select_real_literal_has_three_digits() {
    let mut db = Storage::new();
    assert_eq!(run(&mut db, "SELECT 1.5"), "1.500\n\n");
    assert_eq!(run(&mut db, "SELECT 3.14159"), "3.142\n\n");
    assert_eq!(run(&mut db, "SELECT 0.9995, 0.00049"), "1.000\t0.000\n\n");
    assert_eq!(run(&mut db, "SELECT -0.5"), "-0.500\n\n");
}

#[test]
fn select_null_is_an_empty_field() {
    let mut db = Storage::new();
    assert_eq!(run(&mut db, "SELECT NULL"), "\n\n");
    assert_eq!(run(&mut db, "SELECT 1, NULL, 'x'"), "1\t\tx\n\n");
}

#[test]
fn create_insert_select_keeps_insertion_order() {
    let mut db = Storage::new();
    assert_eq!(run(&mut db, "CREATE TABLE t(x INT, y TEXT)"), "\n");
    assert_eq!(run(&mut db, "INSERT INTO t VALUES (3, 'c'), (1, 'a')"), "\n");
    assert_eq!(run(&mut db, "INSERT INTO t VALUES (2, 'b');"), "\n");
    assert_eq!(run(&mut db, "SELECT * FROM t"), "3\tc\n1\ta\n2\tb\n\n");
}

#[test]
fn malformed_statement_is_one_error_line() {
    let mut db = Storage::new();
    run(&mut db, "CREATE TABLE t(x INT)");
    run(&mut db, "INSERT INTO t VALUES (1)");
    let out = run(&mut db, "SELECT FROM");
    assert!(out.starts_with("Error: "));
    assert!(out.ends_with("\n\n"));
    assert_eq!(out.matches('\n').count(), 2);
    assert_eq!(run(&mut db, "SELECT * FROM t"), "1\n\n");
}

#[test]
fn unknown_statement_names_its_first_word() {
    let mut db = Storage::new();
    assert_eq!(run(&mut db, "VACUUM now"), "Error: not implemented - VACUUM\n\n");
}

#[test]
fn empty_statement_is_acknowledged() {
    let mut db = Storage::new();
    assert_eq!(run(&mut db, ""), "\n");
    assert_eq!(run(&mut db, "  ;; "), "\n");
}

#[test]
fn inserts_round_trip_as_a_multiset() {
    let mut db = Storage::new();
    run(&mut db, "CREATE TABLE t(x INT, y TEXT)");
    run(&mut db, "INSERT INTO t VALUES (1, 'a'), (2, 'b')");
    run(&mut db, "INSERT INTO t VALUES (1, 'a')");
    run(&mut db, "INSERT INTO t VALUES (NULL, NULL), (2, 'b'), (1, 'a')");
    let out = run(&mut db, "SELECT * FROM t");
    assert_eq!(out, "1\ta\n2\tb\n1\ta\n\t\n2\tb\n1\ta\n\n");
    let mut lines: Vec<&str> = out.trim_end_matches('\n').split('\n').collect();
    lines.sort();
    assert_eq!(lines, vec!["\t", "1\ta", "1\ta", "1\ta", "2\tb", "2\tb"]);
}

#[test]
fn a_failed_statement_changes_nothing() {
    let mut db = Storage::new();
    run(&mut db, "CREATE TABLE t(x INT)");
    run(&mut db, "INSERT INTO t VALUES (1), (2)");
    for bad in [
        "SELECT FROM",
        "INSERT INTO t VALUES (3), ('x')",
        "INSERT INTO t VALUES (3, 4)",
        "UPDATE t SET x = x / 0",
        "DELETE FROM t WHERE x = 'a'",
        "CREATE TABLE t(y INT)",
        "DROP TABLE u",
        "SELEC * FROM t",
    ] {
        let out = run(&mut db, bad);
        assert!(out.starts_with("Error: "), "{}", bad);
        assert!(out.ends_with("\n\n"), "{}", bad);
        assert_eq!(out.matches('\n').count(), 2, "{}", bad);
        assert_eq!(run(&mut db, "SELECT * FROM t"), "1\n2\n\n");
    }
}

#[test]
fn statements_may_span_lines_joined_by_spaces() {
    let mut db = Storage::new();
    assert_eq!(run(&mut db, "CREATE TABLE t ( x INT , y INT ) ;"), "\n");
    assert_eq!(run(&mut db, "  INSERT INTO t VALUES ( 1 , 2 ) , ( 3 , 4 )  "), "\n");
    assert_eq!(run(&mut db, "SELECT x + y FROM t WHERE y > 2;;"), "7\n\n");
}

#[test]
fn insert_names_its_columns() {
    let mut db = Storage::new();
    run(&mut db, "CREATE TABLE t(a INT, b TEXT, c REAL)");
    assert_eq!(run(&mut db, "INSERT INTO t(c, a) VALUES (1.5, 1), (2, 2)"), "\n");
    assert_eq!(run(&mut db, "INSERT INTO t (B) VALUES ('x')"), "\n");
    assert_eq!(run(&mut db, "SELECT * FROM t"), "1\t\t1.500\n2\t\t2\n\tx\t\n\n");
    assert_eq!(run(&mut db, "INSERT INTO t(a, z) VALUES (1, 2)"), "Error: unknown column\n\n");
    assert_eq!(run(&mut db, "INSERT INTO t(a) VALUES (1, 2)"), "Error: column count mismatch\n\n");
    assert_eq!(run(&mut db, "INSERT INTO t(a, b) VALUES (1)"), "Error: column count mismatch\n\n");
    assert_eq!(run(&mut db, "INSERT INTO t(a VALUES (1)"), "Error: unexpected token\n\n");
    assert_eq!(run(&mut db, "INSERT INTO t() VALUES (1)"), "Error: unexpected token\n\n");
    assert_eq!(run(&mut db, "INSERT INTO u(a) VALUES (1)"), "Error: unknown table\n\n");
    assert_eq!(run(&mut db, "SELECT COUNT(*) FROM t"), "3\n\n");
}

#[test]
fn insert_leaves_unnamed_columns_null() {
    let mut db = Storage::new();
    run(&mut db, "CREATE TABLE t(a INT NOT NULL, b INT)");
    assert_eq!(run(&mut db, "INSERT INTO t(b) VALUES (1)"), "Error: type mismatch\n\n");
    assert_eq!(run(&mut db, "INSERT INTO t(a) VALUES (1)"), "\n");
    assert_eq!(run(&mut db, "SELECT b, a FROM t"), "\t1\n\n");
}
