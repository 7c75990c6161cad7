use sql_engine::ast::{ColumnDef, Expr, SelectItem, Statement};
use sql_engine::error::{EngineError, ParseErrorKind};
use sql_engine::executor::{execute, ExecResult};
use sql_engine::lexer::tokenize;
use sql_engine::parser::parse;
use sql_engine::scalar::{arithmetic, compare, render};
use sql_engine::storage::Storage;
use sql_engine::text::chars_of;
use sql_engine::token::{Keyword, Token};
use sql_engine::value::{ArithOp, ColumnType, Order, Value};

fn column(name: &str, ty: ColumnType, not_null: bool) -> ColumnDef {
    ColumnDef { name: name.to_string(), ty, not_null }
}

#[test]
fn tokens_of_a_statement() {
    let chars = chars_of("select x1, 'a''b' <= 2.5");
    let tokens = tokenize(&chars).unwrap();
    let kinds: Vec<Token> = tokens.iter().map(|l| l.token).collect();
    assert_eq!(
        kinds,
        vec![
            Token::Keyword(Keyword::Select),
            Token::Name { start: 7, end: 9 },
            Token::Comma,
            Token::Text { start: 12, end: 16 },
            Token::Le,
            Token::Real(2500),
        ]
    );
    assert_eq!(tokens[3].pos, 11);
}

#[test]
fn lexer_reports_the_position() {
    let chars = chars_of("SELECT 'abc");
    let e = tokenize(&chars).unwrap_err();
    assert_eq!(e.kind, ParseErrorKind::Unterminated);
    assert_eq!(e.position, 7);
}

#[test]
fn parser_reports_the_position() {
    let e = parse("SELECT 1 FROM").unwrap_err();
    assert_eq!(e.kind, ParseErrorKind::UnexpectedToken);
    assert_eq!(e.position, 13);
    let e = parse("SELECT (1").unwrap_err();
    assert_eq!(e.kind, ParseErrorKind::UnbalancedParens);
    assert_eq!(e.position, 7);
    let e = parse("EXPLAIN SELECT 1").unwrap_err();
    assert_eq!(e.kind, ParseErrorKind::UnknownKeyword);
    assert_eq!(e.position, 0);
}

#[test]
fn parse_builds_the_tree() {
    match parse("SELECT a, 1 FROM t WHERE a > 2").unwrap() {
        Statement::Select(q) => {
            assert_eq!(q.items.len(), 2);
            assert!(matches!(&q.items[0], SelectItem::Expr { expr: Expr::ColumnRef { .. }, alias: None }));
            assert!(matches!(&q.items[1], SelectItem::Expr { expr: Expr::Literal(Value::Integer(1)), alias: None }));
            assert_eq!(q.from.unwrap().name, "t");
            assert!(matches!(q.filter, Some(Expr::BinaryOp { .. })));
            assert!(q.joins.is_empty() && q.group_by.is_empty() && q.order_by.is_empty());
            assert!(q.having.is_none() && q.limit.is_none());
        }
        _ => panic!("not a query"),
    }
}

#[test]
fn parse_create_table() {
    match parse("CREATE TABLE t(a INTEGER NOT NULL, b VARCHAR, c real)").unwrap() {
        Statement::CreateTable { name, columns } => {
            assert_eq!(name, "t");
            assert_eq!(columns.len(), 3);
            assert_eq!(columns[0].name, "a");
            assert_eq!(columns[0].ty, ColumnType::Integer);
            assert!(columns[0].not_null);
            assert_eq!(columns[1].ty, ColumnType::Text);
            assert!(!columns[1].not_null);
            assert_eq!(columns[2].ty, ColumnType::Real);
        }
        _ => panic!("not a table definition"),
    }
}

#[test]
fn storage_creates_and_fills_tables() {
    let mut db = Storage::new();
    assert_eq!(db.create_table("t".to_string(), vec![column("x", ColumnType::Integer, false)]), Ok(()));
    assert_eq!(
        db.create_table("T".to_string(), vec![column("y", ColumnType::Text, false)]),
        Err(EngineError::TableAlreadyExists)
    );
    assert_eq!(db.insert("t", vec![vec![Value::Integer(1)], vec![Value::Null]]), Ok(2));
    assert_eq!(db.insert("missing", vec![]), Err(EngineError::UnknownTable));
    assert_eq!(db.insert("t", vec![vec![Value::Integer(2)], vec![]]), Err(EngineError::ColumnCountMismatch));
    assert_eq!(
        db.insert("t", vec![vec![Value::Text("a".to_string())]]),
        Err(EngineError::TypeMismatch)
    );
    assert_eq!(db.scan("t").unwrap(), &vec![vec![Value::Integer(1)], vec![Value::Null]]);
    assert_eq!(db.scan("u").unwrap_err(), EngineError::UnknownTable);
}

#[test]
fn storage_updates_and_deletes() {
    let mut db = Storage::new();
    db.create_table("t".to_string(), vec![column("x", ColumnType::Integer, true)]).unwrap();
    db.insert("t", vec![vec![Value::Integer(1)], vec![Value::Integer(2)], vec![Value::Integer(3)]]).unwrap();
    assert_eq!(db.update("t", &vec![None, Some(vec![Value::Integer(20)])]), Ok(1));
    assert_eq!(db.update("t", &vec![Some(vec![Value::Null])]), Err(EngineError::TypeMismatch));
    assert_eq!(
        db.scan("t").unwrap(),
        &vec![vec![Value::Integer(1)], vec![Value::Integer(20)], vec![Value::Integer(3)]]
    );
    assert_eq!(db.delete("t", &vec![true, false, true]), Ok(2));
    assert_eq!(db.scan("t").unwrap(), &vec![vec![Value::Integer(20)]]);
    assert_eq!(db.delete("u", &vec![]), Err(EngineError::UnknownTable));
    assert_eq!(db.drop_table("T"), Ok(()));
    assert_eq!(db.drop_table("t"), Err(EngineError::UnknownTable));
}

#[test]
fn execute_gives_rows_or_counts() {
    let mut db = Storage::new();
    let create = parse("CREATE TABLE t(x INT)").unwrap();
    assert!(matches!(execute(&create, &mut db), Ok(ExecResult::Count(0))));
    let insert = parse("INSERT INTO t VALUES (1), (2), (3)").unwrap();
    assert!(matches!(execute(&insert, &mut db), Ok(ExecResult::Count(3))));
    let update = parse("UPDATE t SET x = 0 WHERE x > 1").unwrap();
    assert!(matches!(execute(&update, &mut db), Ok(ExecResult::Count(2))));
    let delete = parse("DELETE FROM t WHERE x = 0").unwrap();
    assert!(matches!(execute(&delete, &mut db), Ok(ExecResult::Count(2))));
    let query = parse("SELECT x AS n, x + 1, t.x FROM t").unwrap();
    match execute(&query, &mut db) {
        Ok(ExecResult::Rows(rs)) => {
            assert_eq!(rs.columns, vec!["n".to_string(), String::new(), "x".to_string()]);
            assert_eq!(rs.rows, vec![vec![Value::Integer(1), Value::Integer(2), Value::Integer(1)]]);
        }
        _ => panic!("not a result set"),
    }
    let bad = parse("SELECT * FROM missing").unwrap();
    assert!(matches!(execute(&bad, &mut db), Err(EngineError::UnknownTable)));
}

#[test]
fn values_compare_numerically() {
    assert_eq!(compare(&Value::Integer(1), &Value::Real(1000)), Ok(Some(Order::Equal)));
    assert_eq!(compare(&Value::Integer(2), &Value::Real(1999)), Ok(Some(Order::Greater)));
    assert_eq!(compare(&Value::Null, &Value::Integer(1)), Ok(None));
    assert_eq!(
        compare(&Value::Text("a".to_string()), &Value::Text("b".to_string())),
        Ok(Some(Order::Less))
    );
    assert_eq!(compare(&Value::Text("a".to_string()), &Value::Integer(1)), Err(EngineError::TypeMismatch));
}

#[test]
fn values_add_and_divide() {
    assert_eq!(arithmetic(ArithOp::Add, &Value::Integer(2), &Value::Integer(3)), Ok(Value::Integer(5)));
    assert_eq!(arithmetic(ArithOp::Div, &Value::Integer(1), &Value::Real(4000)), Ok(Value::Real(250)));
    assert_eq!(arithmetic(ArithOp::Mul, &Value::Real(-1500), &Value::Real(1500)), Ok(Value::Real(-2250)));
    assert_eq!(arithmetic(ArithOp::Sub, &Value::Null, &Value::Integer(3)), Ok(Value::Null));
    assert_eq!(
        arithmetic(ArithOp::Div, &Value::Integer(i64::MIN), &Value::Integer(-1)),
        Err(EngineError::TypeMismatch)
    );
    assert_eq!(
        arithmetic(ArithOp::Mul, &Value::Integer(i64::MAX), &Value::Integer(2)),
        Err(EngineError::TypeMismatch)
    );
}

#[test]
fn values_render() {
    assert_eq!(render(&Value::Integer(0)), "0");
    assert_eq!(render(&Value::Integer(-120)), "-120");
    assert_eq!(render(&Value::Integer(i64::MIN)), "-9223372036854775808");
    assert_eq!(render(&Value::Real(5)), "0.005");
    assert_eq!(render(&Value::Real(-12340)), "-12.340");
    assert_eq!(render(&Value::Text("a\tb".to_string())), "a\tb");
    assert_eq!(render(&Value::Null), "");
}
