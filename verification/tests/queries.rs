use sql_engine::engine::execute_sql;
use sql_engine::storage::Storage;

fn run(db: &mut Storage, sql: &str) -> String {
    execute_sql(sql, db)
}

fn numbers() -> Storage {
    let mut db = Storage::new();
    assert_eq!(run(&mut db, "CREATE TABLE t(x INTEGER)"), "\n");
    assert_eq!(run(&mut db, "INSERT INTO t VALUES (1), (NULL), (5)"), "\n");
    db
}

fn two_tables() -> Storage {
    let mut db = Storage::new();
    run(&mut db, "CREATE TABLE a(x INT)");
    run(&mut db, "CREATE TABLE b(y INT, z TEXT)");
    run(&mut db, "INSERT INTO a VALUES (1), (2)");
    run(&mut db, "INSERT INTO b VALUES (1, 'one'), (2, 'two'), (3, 'three')");
    db
}

#[test]
fn null_never_equals() {
    let mut db = numbers();
    assert_eq!(run(&mut db, "SELECT x FROM t WHERE x = 5"), "5\n\n");
    assert_eq!(run(&mut db, "SELECT x FROM t WHERE x <> 5"), "1\n\n");
    assert_eq!(run(&mut db, "SELECT x FROM t WHERE x = NULL"), "\n");
}

#[test]
fn null_is_null() {
    let mut db = numbers();
    assert_eq!(run(&mut db, "SELECT x FROM t WHERE x IS NULL"), "\n\n");
    assert_eq!(run(&mut db, "SELECT x FROM t WHERE x IS NOT NULL"), "1\n5\n\n");
}

#[test]
fn group_by_puts_nulls_together() {
    let mut db = Storage::new();
    run(&mut db, "CREATE TABLE g(k INT, v INT)");
    run(&mut db, "INSERT INTO g VALUES (NULL, 1), (1, 3), (NULL, 2)");
    assert_eq!(run(&mut db, "SELECT k, COUNT(*) FROM g GROUP BY k"), "\t2\n1\t1\n\n");
    assert_eq!(run(&mut db, "SELECT k, SUM(v) FROM g GROUP BY k"), "\t3\n1\t3\n\n");
}

#[test]
fn aggregates_over_an_empty_table() {
    let mut db = Storage::new();
    run(&mut db, "CREATE TABLE e(v INT)");
    assert_eq!(run(&mut db, "SELECT COUNT(*) FROM e"), "0\n\n");
    assert_eq!(run(&mut db, "SELECT SUM(v) FROM e"), "\n\n");
    assert_eq!(run(&mut db, "SELECT COUNT(v), MIN(v), MAX(v), AVG(v) FROM e"), "0\t\t\t\n\n");
    assert_eq!(run(&mut db, "SELECT COUNT(*) FROM e GROUP BY v"), "\n");
}

#[test]
fn aggregates_pass_over_nulls() {
    let mut db = numbers();
    assert_eq!(run(&mut db, "SELECT COUNT(*), COUNT(x), SUM(x) FROM t"), "3\t2\t6\n\n");
    assert_eq!(run(&mut db, "SELECT MIN(x), MAX(x), AVG(x) FROM t"), "1\t5\t3.000\n\n");
}

#[test]
fn average_is_a_real() {
    let mut db = Storage::new();
    run(&mut db, "CREATE TABLE v(n INT)");
    run(&mut db, "INSERT INTO v VALUES (1), (2), (4)");
    assert_eq!(run(&mut db, "SELECT AVG(n) FROM v"), "2.333\n\n");
    run(&mut db, "INSERT INTO v VALUES (1)");
    assert_eq!(run(&mut db, "SELECT AVG(n) FROM v"), "2.000\n\n");
    run(&mut db, "DELETE FROM v WHERE n = 4");
    assert_eq!(run(&mut db, "SELECT AVG(n) FROM v"), "1.333\n\n");
    run(&mut db, "INSERT INTO v VALUES (1), (2), (2), (2)");
    assert_eq!(run(&mut db, "SELECT AVG(n), SUM(n), COUNT(n) FROM v"), "1.571\t11\t7\n\n");
}

#[test]
fn sum_of_reals() {
    let mut db = Storage::new();
    run(&mut db, "CREATE TABLE r(n REAL)");
    run(&mut db, "INSERT INTO r VALUES (1.5), (2.25), (1)");
    assert_eq!(run(&mut db, "SELECT SUM(n) FROM r"), "4.750\n\n");
    assert_eq!(run(&mut db, "SELECT n FROM r"), "1.500\n2.250\n1\n\n");
}

#[test]
fn min_and_max_of_text() {
    let mut db = Storage::new();
    run(&mut db, "CREATE TABLE w(s TEXT)");
    run(&mut db, "INSERT INTO w VALUES ('pear'), ('apple'), ('plum')");
    assert_eq!(run(&mut db, "SELECT MIN(s), MAX(s) FROM w"), "apple\tplum\n\n");
}

#[test]
fn having_filters_groups() {
    let mut db = Storage::new();
    run(&mut db, "CREATE TABLE g(k TEXT, v INT)");
    run(&mut db, "INSERT INTO g VALUES ('a', 1), ('b', 2), ('a', 3), ('c', 4)");
    assert_eq!(
        run(&mut db, "SELECT k, SUM(v) FROM g GROUP BY k HAVING COUNT(*) > 1"),
        "a\t4\n\n"
    );
    assert_eq!(
        run(&mut db, "SELECT k FROM g GROUP BY k HAVING SUM(v) >= 2 ORDER BY k DESC"),
        "c\nb\na\n\n"
    );
}

#[test]
fn cross_join_is_the_product() {
    let mut db = two_tables();
    assert_eq!(
        run(&mut db, "SELECT * FROM a, b"),
        "1\t1\tone\n1\t2\ttwo\n1\t3\tthree\n2\t1\tone\n2\t2\ttwo\n2\t3\tthree\n\n"
    );
    assert_eq!(run(&mut db, "SELECT COUNT(*) FROM a CROSS JOIN b"), "6\n\n");
}

#[test]
fn inner_join_with_a_false_condition_is_empty() {
    let mut db = two_tables();
    assert_eq!(run(&mut db, "SELECT * FROM a INNER JOIN b ON 1 = 0"), "\n");
    assert_eq!(run(&mut db, "SELECT COUNT(*) FROM a JOIN b ON 1 = 0"), "0\n\n");
}

#[test]
fn left_join_with_a_false_condition_keeps_the_left_rows() {
    let mut db = two_tables();
    assert_eq!(run(&mut db, "SELECT * FROM a LEFT JOIN b ON 1 = 0"), "1\t\t\n2\t\t\n\n");
    assert_eq!(run(&mut db, "SELECT x, y FROM a LEFT OUTER JOIN b ON 0"), "1\t\n2\t\n\n");
}

#[test]
fn inner_join_on_equal_columns() {
    let mut db = two_tables();
    assert_eq!(run(&mut db, "SELECT x, z FROM a JOIN b ON x = y"), "1\tone\n2\ttwo\n\n");
    assert_eq!(
        run(&mut db, "SELECT b.z, a.x FROM a INNER JOIN b ON a.x + 1 = b.y"),
        "two\t1\nthree\t2\n\n"
    );
}

#[test]
fn left_join_fills_missing_rows_with_nulls() {
    let mut db = two_tables();
    run(&mut db, "INSERT INTO a VALUES (9)");
    assert_eq!(
        run(&mut db, "SELECT x, z FROM a LEFT JOIN b ON x = y"),
        "1\tone\n2\ttwo\n9\t\n\n"
    );
}

#[test]
fn three_tables_join_from_the_left() {
    let mut db = two_tables();
    run(&mut db, "CREATE TABLE c(w INT)");
    run(&mut db, "INSERT INTO c VALUES (2), (3)");
    assert_eq!(
        run(&mut db, "SELECT x, y, w FROM a JOIN b ON x = y JOIN c ON w = y"),
        "2\t2\t2\n\n"
    );
    assert_eq!(run(&mut db, "SELECT COUNT(*) FROM a, b, c"), "12\n\n");
}

#[test]
fn aliases_name_tables_and_columns() {
    let mut db = two_tables();
    assert_eq!(
        run(&mut db, "SELECT l.x, r.x FROM a AS l, a r WHERE l.x < r.x"),
        "1\t2\n\n"
    );
    assert_eq!(run(&mut db, "SELECT x AS n FROM a WHERE x > 1"), "2\n\n");
}

#[test]
fn order_by_sorts_with_nulls_first() {
    let mut db = numbers();
    assert_eq!(run(&mut db, "SELECT x FROM t ORDER BY x"), "\n1\n5\n\n");
    assert_eq!(run(&mut db, "SELECT x FROM t ORDER BY x ASC"), "\n1\n5\n\n");
    assert_eq!(run(&mut db, "SELECT x FROM t ORDER BY x DESC"), "5\n1\n\n\n");
}

#[test]
fn order_by_is_stable_and_takes_several_keys() {
    let mut db = Storage::new();
    run(&mut db, "CREATE TABLE p(k INT, s TEXT)");
    run(&mut db, "INSERT INTO p VALUES (2, 'b'), (1, 'z'), (2, 'a'), (1, 'y')");
    assert_eq!(run(&mut db, "SELECT k, s FROM p ORDER BY k"), "1\tz\n1\ty\n2\tb\n2\ta\n\n");
    assert_eq!(
        run(&mut db, "SELECT k, s FROM p ORDER BY k DESC, s"),
        "2\ta\n2\tb\n1\ty\n1\tz\n\n"
    );
}

#[test]
fn limit_cuts_the_result() {
    let mut db = two_tables();
    assert_eq!(run(&mut db, "SELECT y FROM b ORDER BY y DESC LIMIT 2"), "3\n2\n\n");
    assert_eq!(run(&mut db, "SELECT y FROM b LIMIT 0"), "\n");
    assert_eq!(run(&mut db, "SELECT y FROM b LIMIT 10"), "1\n2\n3\n\n");
}

#[test]
fn scalar_subquery() {
    let mut db = two_tables();
    assert_eq!(run(&mut db, "SELECT (SELECT MAX(y) FROM b)"), "3\n\n");
    assert_eq!(run(&mut db, "SELECT (SELECT y FROM b WHERE y > 5)"), "\n\n");
    assert_eq!(
        run(&mut db, "SELECT (SELECT y FROM b)"),
        "Error: subquery returned more than one row\n\n"
    );
    assert_eq!(
        run(&mut db, "SELECT (SELECT y, z FROM b WHERE y = 1)"),
        "Error: subquery returned more than one row\n\n"
    );
}

#[test]
fn in_subquery() {
    let mut db = two_tables();
    assert_eq!(run(&mut db, "SELECT y FROM b WHERE y IN (SELECT x FROM a)"), "1\n2\n\n");
    assert_eq!(run(&mut db, "SELECT y FROM b WHERE y NOT IN (SELECT x FROM a)"), "3\n\n");
}

#[test]
fn exists_subquery() {
    let mut db = two_tables();
    assert_eq!(run(&mut db, "SELECT x FROM a WHERE EXISTS (SELECT 1 FROM b WHERE y > 2)"), "1\n2\n\n");
    assert_eq!(run(&mut db, "SELECT x FROM a WHERE NOT EXISTS (SELECT 1 FROM b)"), "\n");
}

#[test]
fn correlated_subquery_sees_the_outer_row() {
    let mut db = two_tables();
    run(&mut db, "INSERT INTO a VALUES (7)");
    assert_eq!(
        run(&mut db, "SELECT x FROM a WHERE EXISTS (SELECT 1 FROM b WHERE y = x)"),
        "1\n2\n\n"
    );
    assert_eq!(
        run(&mut db, "SELECT x, (SELECT z FROM b WHERE y = x) FROM a"),
        "1\tone\n2\ttwo\n7\t\n\n"
    );
    assert_eq!(
        run(&mut db, "SELECT x, (SELECT COUNT(*) FROM b WHERE y >= a.x) FROM a"),
        "1\t3\n2\t2\n7\t0\n\n"
    );
}

#[test]
fn update_changes_matching_rows() {
    let mut db = two_tables();
    assert_eq!(run(&mut db, "UPDATE b SET z = 'big', y = y * 10 WHERE y >= 2"), "\n");
    assert_eq!(run(&mut db, "SELECT * FROM b"), "1\tone\n20\tbig\n30\tbig\n\n");
    assert_eq!(run(&mut db, "UPDATE a SET x = x + 1"), "\n");
    assert_eq!(run(&mut db, "SELECT x FROM a"), "2\n3\n\n");
}

#[test]
fn update_reads_the_row_as_it_was() {
    let mut db = Storage::new();
    run(&mut db, "CREATE TABLE s(p INT, q INT)");
    run(&mut db, "INSERT INTO s VALUES (1, 2)");
    run(&mut db, "UPDATE s SET p = q, q = p");
    assert_eq!(run(&mut db, "SELECT p, q FROM s"), "2\t1\n\n");
}

#[test]
fn failed_update_changes_nothing() {
    let mut db = two_tables();
    assert_eq!(run(&mut db, "UPDATE b SET y = 'x' WHERE y = 3"), "Error: type mismatch\n\n");
    assert_eq!(run(&mut db, "UPDATE b SET y = 1 / (y - 2)"), "Error: division by zero\n\n");
    assert_eq!(run(&mut db, "UPDATE b SET q = 1"), "Error: unknown column\n\n");
    assert_eq!(run(&mut db, "SELECT * FROM b"), "1\tone\n2\ttwo\n3\tthree\n\n");
}

#[test]
fn delete_removes_matching_rows() {
    let mut db = two_tables();
    assert_eq!(run(&mut db, "DELETE FROM b WHERE y = 2"), "\n");
    assert_eq!(run(&mut db, "SELECT y FROM b"), "1\n3\n\n");
    assert_eq!(run(&mut db, "DELETE FROM b"), "\n");
    assert_eq!(run(&mut db, "SELECT COUNT(*) FROM b"), "0\n\n");
}

#[test]
fn drop_table_forgets_the_table() {
    let mut db = two_tables();
    assert_eq!(run(&mut db, "DROP TABLE a"), "\n");
    assert_eq!(run(&mut db, "SELECT * FROM a"), "Error: unknown table\n\n");
    assert_eq!(run(&mut db, "DROP TABLE a"), "Error: unknown table\n\n");
    assert_eq!(run(&mut db, "CREATE TABLE a(k TEXT)"), "\n");
}

#[test]
fn names_ignore_case() {
    let mut db = Storage::new();
    assert_eq!(run(&mut db, "create table Items(Id int, Name text)"), "\n");
    assert_eq!(run(&mut db, "CREATE TABLE ITEMS(x INT)"), "Error: table already exists\n\n");
    assert_eq!(run(&mut db, "insert into ITEMS values (1, 'a')"), "\n");
    assert_eq!(run(&mut db, "SeLeCt iD, NAME fRoM items"), "1\ta\n\n");
}

#[test]
fn quoted_names_and_texts() {
    let mut db = Storage::new();
    assert_eq!(run(&mut db, "CREATE TABLE \"my table\"(\"the id\" INT)"), "\n");
    assert_eq!(run(&mut db, "INSERT INTO \"my table\" VALUES (4)"), "\n");
    assert_eq!(run(&mut db, "SELECT \"the id\" FROM \"my table\""), "4\n\n");
    assert_eq!(run(&mut db, "SELECT 'it''s', ''"), "it's\t\n\n");
}

#[test]
fn order_by_position_sorts_by_a_result_column() {
    let mut db = Storage::new();
    run(&mut db, "CREATE TABLE p(k INT, s TEXT)");
    run(&mut db, "INSERT INTO p VALUES (2, 'b'), (1, 'z'), (2, 'a'), (1, 'y')");
    assert_eq!(run(&mut db, "SELECT s, k FROM p ORDER BY 1"), "a\t2\nb\t2\ny\t1\nz\t1\n\n");
    assert_eq!(run(&mut db, "SELECT k, s FROM p ORDER BY 1 DESC, 2"), "2\ta\n2\tb\n1\ty\n1\tz\n\n");
    assert_eq!(run(&mut db, "SELECT k + 10 FROM p ORDER BY 1"), "11\n11\n12\n12\n\n");
    assert_eq!(run(&mut db, "SELECT k, COUNT(*) FROM p GROUP BY k ORDER BY 2, 1 DESC"), "2\t2\n1\t2\n\n");
    assert_eq!(run(&mut db, "SELECT k FROM p ORDER BY 2"), "Error: unknown column\n\n");
    assert_eq!(run(&mut db, "SELECT k FROM p ORDER BY 0"), "Error: unknown column\n\n");
    assert_eq!(run(&mut db, "SELECT * FROM p ORDER BY 2"), "2\ta\n2\tb\n1\ty\n1\tz\n\n");
}

fn wide_table() -> Storage {
    let mut db = Storage::new();
    run(&mut db, "CREATE TABLE t1(a INTEGER, b INTEGER, c INTEGER, d INTEGER, e INTEGER)");
    run(&mut db, "INSERT INTO t1(e,c,b,d,a) VALUES(103,102,100,101,104)");
    run(&mut db, "INSERT INTO t1(a,c,d,e,b) VALUES(107,106,108,109,105)");
    run(&mut db, "INSERT INTO t1(e,d,b,a,c) VALUES(110,114,112,NULL,113)");
    db
}

#[test]
fn case_with_a_subquery_and_a_positional_sort() {
    let mut db = wide_table();
    assert_eq!(
        run(
            &mut db,
            "SELECT CASE WHEN c>(SELECT avg(c) FROM t1) THEN a*2 ELSE b*10 END FROM t1 ORDER BY 1"
        ),
        "\n1000\n1050\n\n"
    );
    assert_eq!(run(&mut db, "SELECT avg(c), sum(a), count(a), count(*) FROM t1"), "107.000\t211\t2\t3\n\n");
}

#[test]
fn arithmetic_over_columns() {
    let mut db = wide_table();
    assert_eq!(
        run(&mut db, "SELECT a+b*2+c*3+d*4+e*5, (a+b+c+d+e)/5 FROM t1 ORDER BY 1,2"),
        "\t\n1529\t102\n1612\t107\n\n"
    );
    assert_eq!(
        run(&mut db, "SELECT abs(b-c), e FROM t1 WHERE (c>b-2 AND c<b+3) OR a IS NULL ORDER BY 2 DESC"),
        "1\t110\n1\t109\n2\t103\n\n"
    );
}

#[test]
fn correlated_exists_with_table_aliases() {
    let mut db = wide_table();
    assert_eq!(
        run(
            &mut db,
            "SELECT a, b FROM t1 WHERE a > b AND EXISTS(SELECT 1 FROM t1 AS x WHERE x.b < t1.b) ORDER BY a"
        ),
        "107\t105\n\n"
    );
    assert_eq!(
        run(
            &mut db,
            "SELECT b, (SELECT count(*) FROM t1 AS x WHERE x.b < t1.b) FROM t1 WHERE b IN (SELECT b FROM t1 WHERE c > 105) ORDER BY 2 DESC"
        ),
        "112\t2\n105\t1\n\n"
    );
}

#[test]
fn nested_expressions_parse() {
    let mut db = wide_table();
    assert_eq!(run(&mut db, "SELECT ((1 + (2)) * ((3)))"), "9\n\n");
    assert_eq!(run(&mut db, "SELECT - - 1, -(-(1)), NOT NOT 1"), "1\t1\t1\n\n");
    assert_eq!(run(&mut db, "SELECT NOT a IS NULL, a + b IS NULL FROM t1 WHERE e = 110"), "0\t1\n\n");
    assert_eq!(run(&mut db, "SELECT 1 IN (1) AND 2 IN (SELECT 2), 3 NOT IN (SELECT a FROM t1 WHERE a IS NOT NULL)"), "1\t1\n\n");
    assert_eq!(run(&mut db, "SELECT 3 NOT IN (SELECT a FROM t1)"), "\n\n");
    assert_eq!(run(&mut db, "SELECT COALESCE(a, b * (CASE WHEN c > 0 THEN 1 ELSE 0 END), 0) FROM t1 ORDER BY 1"), "104\n107\n112\n\n");
}

#[test]
fn order_by_alias_sorts_by_the_result_column() {
    let mut db = Storage::new();
    run(&mut db, "CREATE TABLE p(k INT, s TEXT)");
    run(&mut db, "INSERT INTO p VALUES (2, 'b'), (1, 'z'), (3, 'a')");
    assert_eq!(run(&mut db, "SELECT -k AS n, s FROM p ORDER BY n"), "-3\ta\n-2\tb\n-1\tz\n\n");
    assert_eq!(run(&mut db, "SELECT -k AS k FROM p ORDER BY k"), "-3\n-2\n-1\n\n");
    assert_eq!(run(&mut db, "SELECT -k AS k FROM p ORDER BY p.k"), "-1\n-2\n-3\n\n");
    assert_eq!(run(&mut db, "SELECT *, k * k AS sq FROM p ORDER BY SQ DESC"), "3\ta\t9\n2\tb\t4\n1\tz\t1\n\n");
    assert_eq!(run(&mut db, "SELECT s, COUNT(*) AS c FROM p GROUP BY s ORDER BY c, s DESC"), "z\t1\nb\t1\na\t1\n\n");
}
