use sql_engine::engine::execute_sql;
use sql_engine::storage::Storage;

fn value(sql: &str) -> String {
    let mut db = Storage::new();
    execute_sql(sql, &mut db)
}

#[test]
fn arithmetic_follows_precedence() {
    assert_eq!(value("SELECT 1 + 2 * 3"), "7\n\n");
    assert_eq!(value("SELECT (1 + 2) * 3"), "9\n\n");
    assert_eq!(value("SELECT 10 - 4 - 3"), "3\n\n");
    assert_eq!(value("SELECT 2 * 3 + 4 * 5"), "26\n\n");
    assert_eq!(value("SELECT - 3 + 5"), "2\n\n");
    assert_eq!(value("SELECT +4"), "4\n\n");
}

#[test]
fn integer_division_rounds_toward_zero() {
    assert_eq!(value("SELECT 7 / 2"), "3\n\n");
    assert_eq!(value("SELECT -7 / 2"), "-3\n\n");
    assert_eq!(value("SELECT 7 / -2"), "-3\n\n");
}

#[test]
fn division_by_zero_is_an_error() {
    assert_eq!(value("SELECT 1 / 0"), "Error: division by zero\n\n");
    assert_eq!(value("SELECT 1.5 / 0"), "Error: division by zero\n\n");
    assert_eq!(value("SELECT NULL / 0"), "\n\n");
}

#[test]
fn reals_and_integers_mix() {
    assert_eq!(value("SELECT 1.5 + 1"), "2.500\n\n");
    assert_eq!(value("SELECT 2 * 1.25"), "2.500\n\n");
    assert_eq!(value("SELECT 1.5 * 1.5"), "2.250\n\n");
    assert_eq!(value("SELECT 1 / 3.0"), "0.333\n\n");
    assert_eq!(value("SELECT 2 / 3.0, -2 / 3.0, 1 / 2000.0"), "0.667\t-0.667\t0.001\n\n");
    assert_eq!(value("SELECT 0.001 * 0.5, 0.001 * 0.4, -0.001 * 0.5"), "0.001\t0.000\t-0.001\n\n");
    assert_eq!(value("SELECT 10.0 / 4"), "2.500\n\n");
    assert_eq!(value("SELECT 0.1 - 0.3"), "-0.200\n\n");
    assert_eq!(value("SELECT 1 = 1.0, 1 < 1.001, 2 > 1.999"), "1\t1\t1\n\n");
}

#[test]
fn overflow_is_a_type_mismatch() {
    assert_eq!(value("SELECT 9223372036854775807 + 1"), "Error: type mismatch\n\n");
    assert_eq!(value("SELECT 9223372036854775807"), "9223372036854775807\n\n");
    assert_eq!(value("SELECT -9223372036854775807 - 1"), "-9223372036854775808\n\n");
    assert_eq!(value("SELECT 9223372036854775808"), "Error: number out of range\n\n");
}

#[test]
fn comparisons_give_one_zero_or_null() {
    assert_eq!(value("SELECT 1 < 2, 2 <= 2, 3 > 4, 4 >= 5, 1 = 1, 1 <> 1, 1 != 2"), "1\t1\t0\t0\t1\t0\t1\n\n");
    assert_eq!(value("SELECT 'a' < 'b', 'b' < 'a', 'a' = 'a', 'a' < 'ab'"), "1\t0\t1\t1\n\n");
    assert_eq!(value("SELECT NULL = NULL, 1 < NULL"), "\t\n\n");
}

#[test]
fn text_and_numbers_do_not_compare() {
    assert_eq!(value("SELECT 'a' < 1"), "Error: type mismatch\n\n");
    assert_eq!(value("SELECT 'a' + 1"), "Error: type mismatch\n\n");
    assert_eq!(value("SELECT NOT 'a'"), "Error: type mismatch\n\n");
}

#[test]
fn three_valued_logic() {
    assert_eq!(value("SELECT NULL OR 1, 1 OR NULL, NULL OR 0, 0 OR NULL"), "1\t1\t\t\n\n");
    assert_eq!(value("SELECT NULL AND 0, 0 AND NULL, NULL AND 1, 1 AND NULL"), "0\t0\t\t\n\n");
    assert_eq!(value("SELECT NOT NULL, NOT 1, NOT 0"), "\t0\t1\n\n");
    assert_eq!(value("SELECT 1 AND 1, 1 AND 0, 0 OR 0, 0 OR 2"), "1\t0\t0\t1\n\n");
}

#[test]
fn and_and_or_stop_where_the_left_decides() {
    assert_eq!(value("SELECT 0 AND 1 / 0"), "0\n\n");
    assert_eq!(value("SELECT 1 OR 1 / 0"), "1\n\n");
    assert_eq!(value("SELECT 1 AND 1 / 0"), "Error: division by zero\n\n");
}

#[test]
fn logic_binds_looser_than_comparison() {
    assert_eq!(value("SELECT 1 = 1 AND 2 = 3 OR 4 = 4"), "1\n\n");
    assert_eq!(value("SELECT NOT 1 = 2"), "1\n\n");
    assert_eq!(value("SELECT NOT 1 = 1 OR 1 = 1"), "1\n\n");
    assert_eq!(value("SELECT 1 + 1 = 2"), "1\n\n");
}

#[test]
fn is_null_tests() {
    assert_eq!(value("SELECT NULL IS NULL, 1 IS NULL, NULL IS NOT NULL, 'a' IS NOT NULL"), "1\t0\t0\t1\n\n");
}

#[test]
fn scalar_functions() {
    assert_eq!(value("SELECT ABS(-3), ABS(3), ABS(-1.5), ABS(NULL)"), "3\t3\t1.500\t\n\n");
    assert_eq!(value("SELECT COALESCE(NULL, NULL, 2, 3), COALESCE(NULL)"), "2\t\n\n");
    assert_eq!(value("SELECT LENGTH('abc'), LENGTH(''), LENGTH(NULL), LENGTH(1234)"), "3\t0\t\t4\n\n");
    assert_eq!(value("SELECT UPPER('aBc1'), LOWER('AbC1'), upper(NULL)"), "ABC1\tabc1\t\n\n");
}

#[test]
fn unknown_function_is_an_error() {
    assert_eq!(value("SELECT FROB(1)"), "Error: unknown function\n\n");
    assert_eq!(value("SELECT ABS(1, 2)"), "Error: unknown function\n\n");
    assert_eq!(value("SELECT ABS('a')"), "Error: type mismatch\n\n");
}

#[test]
fn aggregates_need_a_group() {
    let mut db = Storage::new();
    execute_sql("CREATE TABLE t(x INT, y INT)", &mut db);
    execute_sql("INSERT INTO t VALUES (1, 2)", &mut db);
    assert_eq!(execute_sql("SELECT x FROM t WHERE COUNT(*) > 0", &mut db), "Error: misuse of aggregate\n\n");
    assert_eq!(execute_sql("SELECT x, COUNT(*) FROM t", &mut db), "Error: misuse of aggregate\n\n");
    assert_eq!(execute_sql("SELECT y, COUNT(*) FROM t GROUP BY x", &mut db), "Error: misuse of aggregate\n\n");
    assert_eq!(execute_sql("SELECT SUM(COUNT(*)) FROM t", &mut db), "Error: misuse of aggregate\n\n");
    assert_eq!(execute_sql("SELECT *, COUNT(*) FROM t", &mut db), "Error: misuse of aggregate\n\n");
    assert_eq!(execute_sql("SELECT x, COUNT(*) + 1 FROM t GROUP BY x", &mut db), "1\t2\n\n");
}

#[test]
fn case_takes_the_first_true_branch() {
    assert_eq!(value("SELECT CASE WHEN 1 = 2 THEN 'a' WHEN 2 = 2 THEN 'b' ELSE 'c' END"), "b\n\n");
    assert_eq!(value("SELECT CASE WHEN NULL THEN 'a' ELSE 'c' END"), "c\n\n");
    assert_eq!(value("SELECT CASE WHEN 0 THEN 'a' END"), "\n\n");
    assert_eq!(value("SELECT CASE WHEN 1 THEN 1 WHEN 1 / 0 THEN 2 END"), "1\n\n");
}

#[test]
fn in_list() {
    assert_eq!(value("SELECT 2 IN (1, 2, 3), 4 IN (1, 2, 3), 4 NOT IN (1, 2, 3)"), "1\t0\t1\n\n");
    assert_eq!(value("SELECT 1 IN (NULL, 1), 2 IN (NULL, 1), NULL IN (1), 2 NOT IN (NULL, 1)"), "1\t\t\t\n\n");
    assert_eq!(value("SELECT 'b' IN ('a', 'b')"), "1\n\n");
}

#[test]
fn unknown_column_is_an_error() {
    assert_eq!(value("SELECT x"), "Error: unknown column\n\n");
    let mut db = Storage::new();
    execute_sql("CREATE TABLE t(x INT)", &mut db);
    execute_sql("INSERT INTO t VALUES (1)", &mut db);
    assert_eq!(execute_sql("SELECT y FROM t", &mut db), "Error: unknown column\n\n");
    assert_eq!(execute_sql("SELECT u.x FROM t", &mut db), "Error: unknown column\n\n");
    assert_eq!(execute_sql("SELECT t.x FROM t", &mut db), "1\n\n");
}

#[test]
fn syntax_errors() {
    assert_eq!(value("SELECT FROM"), "Error: unexpected token\n\n");
    assert_eq!(value("SELECT 1 +"), "Error: unexpected token\n\n");
    assert_eq!(value("SELECT 1 2 3 FROM"), "Error: unexpected token\n\n");
    assert_eq!(value("SELECT 'abc"), "Error: unterminated literal\n\n");
    assert_eq!(value("SELECT \"abc"), "Error: unterminated literal\n\n");
    assert_eq!(value("SELECT (1 + 2"), "Error: unbalanced parentheses\n\n");
    assert_eq!(value("SELECT ABS(1"), "Error: unbalanced parentheses\n\n");
    assert_eq!(value("SELECT 1 ? 2"), "Error: invalid character\n\n");
    assert_eq!(value("FROM t SELECT 1"), "Error: not implemented - FROM\n\n");
    assert_eq!(value("SELECT 1; SELECT 2"), "Error: invalid character\n\n");
}

#[test]
fn insert_is_all_or_nothing() {
    let mut db = Storage::new();
    execute_sql("CREATE TABLE t(x INT, y TEXT NOT NULL)", &mut db);
    assert_eq!(execute_sql("INSERT INTO t VALUES (1, 'a'), (2)", &mut db), "Error: column count mismatch\n\n");
    assert_eq!(execute_sql("INSERT INTO t VALUES (1, 'a'), ('b', 'c')", &mut db), "Error: type mismatch\n\n");
    assert_eq!(execute_sql("INSERT INTO t VALUES (1, 'a'), (2, NULL)", &mut db), "Error: type mismatch\n\n");
    assert_eq!(execute_sql("INSERT INTO t VALUES (1.5, 'a')", &mut db), "Error: type mismatch\n\n");
    assert_eq!(execute_sql("INSERT INTO u VALUES (1)", &mut db), "Error: unknown table\n\n");
    assert_eq!(execute_sql("SELECT COUNT(*) FROM t", &mut db), "0\n\n");
    assert_eq!(execute_sql("INSERT INTO t VALUES (NULL, 'a'), (1 + 1, UPPER('b'))", &mut db), "\n");
    assert_eq!(execute_sql("SELECT * FROM t", &mut db), "\ta\n2\tB\n\n");
}

#[test]
fn duplicate_column_is_rejected() {
    let mut db = Storage::new();
    assert_eq!(execute_sql("CREATE TABLE t(x INT, X TEXT)", &mut db), "Error: type mismatch\n\n");
    assert_eq!(execute_sql("CREATE TABLE t(x FOO)", &mut db), "Error: unexpected token\n\n");
    assert_eq!(execute_sql("SELECT * FROM t", &mut db), "Error: unknown table\n\n");
}
