//! The abstract syntax tree of a statement, and the mathematical tree that
//! each node stands for.

use vstd::prelude::*;
use crate::value::{ColumnType, SpecValue, Value};

verus! {

/// The operators that take two operands.
#[derive(Clone, Copy, PartialEq, Eq, Structural, Debug)]
pub enum BinaryOperator {
    Add,
    Sub,
    Mul,
    Div,
    Eq,
    Ne,
    Lt,
    Le,
    Gt,
    Ge,
    And,
    Or,
}

/// The operators that take one operand.
#[derive(Clone, Copy, PartialEq, Eq, Structural, Debug)]
pub enum UnaryOperator {
    Neg,
    Not,
}

/// What a nested query is asked for.
#[derive(Clone, Copy, PartialEq, Eq, Structural, Debug)]
pub enum SubqueryKind {
    /// Its single value.
    Scalar,
    /// Whether it has a row.
    Exists,
    /// Whether the operand is among its rows.
    In,
}

/// How a table is joined to what stands before it.
#[derive(Clone, Copy, PartialEq, Eq, Structural, Debug)]
pub enum JoinKind {
    Cross,
    Inner,
    Left,
}

/// An expression.
#[derive(Debug)]
pub enum Expr {
    Literal(Value),
    ColumnRef { table: Option<String>, name: String },
    BinaryOp { op: BinaryOperator, left: Box<Expr>, right: Box<Expr> },
    UnaryOp { operator: UnaryOperator, operand: Box<Expr> },
    /// A call `name(args)`; `star` marks the form `name(*)`.
    FunctionCall { name: String, args: Vec<Expr>, star: bool },
    Subquery { kind: SubqueryKind, subject: Option<Box<Expr>>, query: Box<Select>, negated: bool },
    CaseWhen { branches: Vec<WhenBranch>, otherwise: Option<Box<Expr>> },
    IsNull { operand: Box<Expr>, negated: bool },
    InList { operand: Box<Expr>, list: Vec<Expr>, negated: bool },
}

/// One `WHEN condition THEN result` of a `CASE`.
#[derive(Debug)]
pub struct WhenBranch {
    pub condition: Expr,
    pub result: Expr,
}

/// One entry of a select list: `*`, or an expression with its optional alias.
#[derive(Debug)]
pub enum SelectItem {
    Star,
    Expr { expr: Expr, alias: Option<String> },
}

/// A table in a `FROM` clause, with its optional alias.
#[derive(Debug)]
pub struct TableRef {
    pub name: String,
    pub alias: Option<String>,
}

/// A table joined to what stands before it.
#[derive(Debug)]
pub struct Join {
    pub kind: JoinKind,
    pub table: TableRef,
    pub on: Option<Expr>,
}

/// One key of an `ORDER BY`.
#[derive(Debug)]
pub struct OrderKey {
    pub expr: Expr,
    pub descending: bool,
}

/// A query.
#[derive(Debug)]
pub struct Select {
    pub items: Vec<SelectItem>,
    pub from: Option<TableRef>,
    pub joins: Vec<Join>,
    pub filter: Option<Expr>,
    pub group_by: Vec<Expr>,
    pub having: Option<Expr>,
    pub order_by: Vec<OrderKey>,
    pub limit: Option<u64>,
}

/// A column of a `CREATE TABLE`.
#[derive(Debug)]
pub struct ColumnDef {
    pub name: String,
    pub ty: ColumnType,
    pub not_null: bool,
}

/// One `column = value` of an `UPDATE`.
#[derive(Debug)]
pub struct Assignment {
    pub column: String,
    pub value: Expr,
}

/// A statement.
#[derive(Debug)]
pub enum Statement {
    CreateTable { name: String, columns: Vec<ColumnDef> },
    DropTable { name: String },
    Insert { table: String, names: Option<Vec<String>>, rows: Vec<Vec<Expr>> },
    Select(Select),
    Update { table: String, assignments: Vec<Assignment>, filter: Option<Expr> },
    Delete { table: String, filter: Option<Expr> },
}

/// The mathematical content of an [`Expr`].
pub enum SpecExpr {
    Literal(SpecValue),
    ColumnRef { table: Option<Seq<char>>, name: Seq<char> },
    BinaryOp { op: BinaryOperator, left: Box<SpecExpr>, right: Box<SpecExpr> },
    UnaryOp { operator: UnaryOperator, operand: Box<SpecExpr> },
    FunctionCall { name: Seq<char>, args: Seq<SpecExpr>, star: bool },
    Subquery {
        kind: SubqueryKind,
        subject: Option<Box<SpecExpr>>,
        query: Box<SpecSelect>,
        negated: bool,
    },
    CaseWhen { branches: Seq<SpecWhenBranch>, otherwise: Option<Box<SpecExpr>> },
    IsNull { operand: Box<SpecExpr>, negated: bool },
    InList { operand: Box<SpecExpr>, list: Seq<SpecExpr>, negated: bool },
}

/// The mathematical content of a [`WhenBranch`].
pub struct SpecWhenBranch {
    pub condition: SpecExpr,
    pub result: SpecExpr,
}

/// The mathematical content of a [`SelectItem`].
pub enum SpecSelectItem {
    Star,
    Expr { expr: SpecExpr, alias: Option<Seq<char>> },
}

/// The mathematical content of a [`TableRef`].
pub struct SpecTableRef {
    pub name: Seq<char>,
    pub alias: Option<Seq<char>>,
}

/// The mathematical content of a [`Join`].
pub struct SpecJoin {
    pub kind: JoinKind,
    pub table: SpecTableRef,
    pub on: Option<SpecExpr>,
}

/// The mathematical content of an [`OrderKey`].
pub struct SpecOrderKey {
    pub expr: SpecExpr,
    pub descending: bool,
}

/// The mathematical content of a [`Select`].
pub struct SpecSelect {
    pub items: Seq<SpecSelectItem>,
    pub from: Option<SpecTableRef>,
    pub joins: Seq<SpecJoin>,
    pub filter: Option<SpecExpr>,
    pub group_by: Seq<SpecExpr>,
    pub having: Option<SpecExpr>,
    pub order_by: Seq<SpecOrderKey>,
    pub limit: Option<u64>,
}

/// The mathematical content of a [`ColumnDef`].
pub struct SpecColumnDef {
    pub name: Seq<char>,
    pub ty: ColumnType,
    pub not_null: bool,
}

/// The mathematical content of an [`Assignment`].
pub struct SpecAssignment {
    pub column: Seq<char>,
    pub value: SpecExpr,
}

/// The mathematical content of a [`Statement`].
pub enum SpecStatement {
    CreateTable { name: Seq<char>, columns: Seq<SpecColumnDef> },
    DropTable { name: Seq<char> },
    Insert { table: Seq<char>, names: Option<Seq<Seq<char>>>, rows: Seq<Seq<SpecExpr>> },
    Select(SpecSelect),
    Update { table: Seq<char>, assignments: Seq<SpecAssignment>, filter: Option<SpecExpr> },
    Delete { table: Seq<char>, filter: Option<SpecExpr> },
}

/// The text of an optional name.
pub open spec fn name_view(s: Option<String>) -> Option<Seq<char>> {
    match s {
        Some(n) => Some(n@),
        None => None,
    }
}

/// The tree that an expression stands for.
pub open spec fn expr_model(e: Expr) -> SpecExpr
    decreases e,
{
    match e {
        Expr::Literal(v) => SpecExpr::Literal(v@),
        Expr::ColumnRef { table, name } => SpecExpr::ColumnRef {
            table: name_view(table),
            name: name@,
        },
        Expr::BinaryOp { op, left, right } => SpecExpr::BinaryOp {
            op,
            left: Box::new(expr_model(*left)),
            right: Box::new(expr_model(*right)),
        },
        Expr::UnaryOp { operator, operand } => SpecExpr::UnaryOp {
            operator,
            operand: Box::new(expr_model(*operand)),
        },
        Expr::FunctionCall { name, args, star } => SpecExpr::FunctionCall {
            name: name@,
            args: Seq::new(
                args@.len(),
                |i: int|
                    if 0 <= i < args@.len() {
                        expr_model(args[i])
                    } else {
                        arbitrary()
                    },
            ),
            star,
        },
        Expr::Subquery { kind, subject, query, negated } => SpecExpr::Subquery {
            kind,
            subject: match subject {
                Some(o) => Some(Box::new(expr_model(*o))),
                None => None,
            },
            query: Box::new(select_model(*query)),
            negated,
        },
        Expr::CaseWhen { branches, otherwise } => SpecExpr::CaseWhen {
            branches: Seq::new(
                branches@.len(),
                |i: int|
                    if 0 <= i < branches@.len() {
                        when_model(branches[i])
                    } else {
                        arbitrary()
                    },
            ),
            otherwise: match otherwise {
                Some(o) => Some(Box::new(expr_model(*o))),
                None => None,
            },
        },
        Expr::IsNull { operand, negated } => SpecExpr::IsNull {
            operand: Box::new(expr_model(*operand)),
            negated,
        },
        Expr::InList { operand, list, negated } => SpecExpr::InList {
            operand: Box::new(expr_model(*operand)),
            list: Seq::new(
                list@.len(),
                |i: int|
                    if 0 <= i < list@.len() {
                        expr_model(list[i])
                    } else {
                        arbitrary()
                    },
            ),
            negated,
        },
    }
}

/// The tree that a branch of a `CASE` stands for.
pub open spec fn when_model(w: WhenBranch) -> SpecWhenBranch
    decreases w,
{
    SpecWhenBranch { condition: expr_model(w.condition), result: expr_model(w.result) }
}

/// The tree that an entry of a select list stands for.
pub open spec fn item_model(item: SelectItem) -> SpecSelectItem
    decreases item,
{
    match item {
        SelectItem::Star => SpecSelectItem::Star,
        SelectItem::Expr { expr, alias } => SpecSelectItem::Expr {
            expr: expr_model(expr),
            alias: name_view(alias),
        },
    }
}

/// The tree that an optional expression stands for.
pub open spec fn optional_model(e: Option<Expr>) -> Option<SpecExpr>
    decreases e,
{
    match e {
        Some(x) => Some(expr_model(x)),
        None => None,
    }
}

/// The tree that a join stands for.
pub open spec fn join_model(j: Join) -> SpecJoin
    decreases j,
{
    SpecJoin { kind: j.kind, table: j.table.deep_view(), on: optional_model(j.on) }
}

/// The tree that a sort key stands for.
pub open spec fn key_model(k: OrderKey) -> SpecOrderKey
    decreases k,
{
    SpecOrderKey { expr: expr_model(k.expr), descending: k.descending }
}

/// The tree that a query stands for.
pub open spec fn select_model(q: Select) -> SpecSelect
    decreases q,
{
    SpecSelect {
        items: Seq::new(
                q.items@.len(),
                |i: int|
                    if 0 <= i < q.items@.len() {
                        item_model(q.items[i])
                    } else {
                        arbitrary()
                    },
            ),
        from: match q.from {
            Some(t) => Some(t.deep_view()),
            None => None,
        },
        joins: Seq::new(
                q.joins@.len(),
                |i: int|
                    if 0 <= i < q.joins@.len() {
                        join_model(q.joins[i])
                    } else {
                        arbitrary()
                    },
            ),
        filter: optional_model(q.filter),
        group_by: Seq::new(
                q.group_by@.len(),
                |i: int|
                    if 0 <= i < q.group_by@.len() {
                        expr_model(q.group_by[i])
                    } else {
                        arbitrary()
                    },
            ),
        having: optional_model(q.having),
        order_by: Seq::new(
                q.order_by@.len(),
                |i: int|
                    if 0 <= i < q.order_by@.len() {
                        key_model(q.order_by[i])
                    } else {
                        arbitrary()
                    },
            ),
        limit: q.limit,
    }
}

impl DeepView for Expr {
    type V = SpecExpr;

    open spec fn deep_view(&self) -> SpecExpr {
        expr_model(*self)
    }
}

impl DeepView for WhenBranch {
    type V = SpecWhenBranch;

    open spec fn deep_view(&self) -> SpecWhenBranch {
        when_model(*self)
    }
}

impl DeepView for SelectItem {
    type V = SpecSelectItem;

    open spec fn deep_view(&self) -> SpecSelectItem {
        item_model(*self)
    }
}

impl DeepView for TableRef {
    type V = SpecTableRef;

    open spec fn deep_view(&self) -> SpecTableRef {
        SpecTableRef { name: self.name@, alias: name_view(self.alias) }
    }
}

impl DeepView for Join {
    type V = SpecJoin;

    open spec fn deep_view(&self) -> SpecJoin {
        join_model(*self)
    }
}

impl DeepView for OrderKey {
    type V = SpecOrderKey;

    open spec fn deep_view(&self) -> SpecOrderKey {
        key_model(*self)
    }
}

impl DeepView for Select {
    type V = SpecSelect;

    open spec fn deep_view(&self) -> SpecSelect {
        select_model(*self)
    }
}

impl DeepView for ColumnDef {
    type V = SpecColumnDef;

    open spec fn deep_view(&self) -> SpecColumnDef {
        SpecColumnDef { name: self.name@, ty: self.ty, not_null: self.not_null }
    }
}

impl DeepView for Assignment {
    type V = SpecAssignment;

    open spec fn deep_view(&self) -> SpecAssignment {
        SpecAssignment { column: self.column@, value: self.value.deep_view() }
    }
}

impl DeepView for Statement {
    type V = SpecStatement;

    open spec fn deep_view(&self) -> SpecStatement {
        match self {
            Statement::CreateTable { name, columns } => SpecStatement::CreateTable {
                name: name@,
                columns: columns.deep_view(),
            },
            Statement::DropTable { name } => SpecStatement::DropTable { name: name@ },
            Statement::Insert { table, names, rows } => SpecStatement::Insert {
                table: table@,
                names: names.deep_view(),
                rows: rows.deep_view(),
            },
            Statement::Select(q) => SpecStatement::Select(q.deep_view()),
            Statement::Update { table, assignments, filter } => SpecStatement::Update {
                table: table@,
                assignments: assignments.deep_view(),
                filter: optional_model(*filter),
            },
            Statement::Delete { table, filter } => SpecStatement::Delete {
                table: table@,
                filter: optional_model(*filter),
            },
        }
    }
}

/// The view of a vector after a push is the view before it, with the view of
/// what was pushed at its end.
pub proof fn lemma_push_view<T: DeepView>(before: Vec<T>, after: Vec<T>, x: T)
    requires
        after@ == before@.push(x),
    ensures
        after.deep_view() == before.deep_view().push(x.deep_view()),
{
    assert(after.deep_view() =~= before.deep_view().push(x.deep_view()));
}

/// The view of an empty vector is empty.
pub proof fn lemma_empty_view<T: DeepView>(v: Vec<T>)
    requires
        v@.len() == 0,
    ensures
        v.deep_view() == Seq::<T::V>::empty(),
{
    assert(v.deep_view() =~= Seq::<T::V>::empty());
}

/// The tree of an expression, one level down: each node stands for the node
/// of the same kind over the trees of its parts.
pub proof fn lemma_expr_model(e: Expr)
    ensures
        expr_model(e) == match e {
            Expr::Literal(v) => SpecExpr::Literal(v@),
            Expr::ColumnRef { table, name } => SpecExpr::ColumnRef {
                table: name_view(table),
                name: name@,
            },
            Expr::BinaryOp { op, left, right } => SpecExpr::BinaryOp {
                op,
                left: Box::new(expr_model(*left)),
                right: Box::new(expr_model(*right)),
            },
            Expr::UnaryOp { operator, operand } => SpecExpr::UnaryOp {
                operator,
                operand: Box::new(expr_model(*operand)),
            },
            Expr::FunctionCall { name, args, star } => SpecExpr::FunctionCall {
                name: name@,
                args: args.deep_view(),
                star,
            },
            Expr::Subquery { kind, subject, query, negated } => SpecExpr::Subquery {
                kind,
                subject: match subject {
                    Some(o) => Some(Box::new(expr_model(*o))),
                    None => None,
                },
                query: Box::new(select_model(*query)),
                negated,
            },
            Expr::CaseWhen { branches, otherwise } => SpecExpr::CaseWhen {
                branches: branches.deep_view(),
                otherwise: match otherwise {
                    Some(o) => Some(Box::new(expr_model(*o))),
                    None => None,
                },
            },
            Expr::IsNull { operand, negated } => SpecExpr::IsNull {
                operand: Box::new(expr_model(*operand)),
                negated,
            },
            Expr::InList { operand, list, negated } => SpecExpr::InList {
                operand: Box::new(expr_model(*operand)),
                list: list.deep_view(),
                negated,
            },
        },
{
    match e {
        Expr::FunctionCall { name, args, star } => {
            assert(expr_model(e)->args =~= args.deep_view());
        },
        Expr::InList { operand, list, negated } => {
            assert(expr_model(e)->list =~= list.deep_view());
        },
        Expr::CaseWhen { branches, otherwise } => {
            assert(expr_model(e)->branches =~= branches.deep_view());
        },
        _ => {},
    }
}

/// The tree of a `WHEN` branch.
pub proof fn lemma_when_model(w: WhenBranch)
    ensures
        when_model(w) == (SpecWhenBranch {
            condition: expr_model(w.condition),
            result: expr_model(w.result),
        }),
{
}

/// The tree of a select item.
pub proof fn lemma_item_model(item: SelectItem)
    ensures
        item_model(item) == match item {
            SelectItem::Star => SpecSelectItem::Star,
            SelectItem::Expr { expr, alias } => SpecSelectItem::Expr {
                expr: expr_model(expr),
                alias: name_view(alias),
            },
        },
{
}

/// The tree of a join.
pub proof fn lemma_join_model(j: Join)
    ensures
        join_model(j) == (SpecJoin {
            kind: j.kind,
            table: j.table.deep_view(),
            on: optional_model(j.on),
        }),
{
}

/// The tree of a sort key.
pub proof fn lemma_key_model(k: OrderKey)
    ensures
        key_model(k) == (SpecOrderKey { expr: expr_model(k.expr), descending: k.descending }),
{
}

/// The tree of a query: each sequence in it is the view of the vector in the
/// query.
pub proof fn lemma_select_model(q: Select)
    ensures
        select_model(q) == (SpecSelect {
            items: q.items.deep_view(),
            from: match q.from {
                Some(t) => Some(t.deep_view()),
                None => None,
            },
            joins: q.joins.deep_view(),
            filter: optional_model(q.filter),
            group_by: q.group_by.deep_view(),
            having: optional_model(q.having),
            order_by: q.order_by.deep_view(),
            limit: q.limit,
        }),
{
    assert(select_model(q).items =~= q.items.deep_view());
    assert(select_model(q).joins =~= q.joins.deep_view());
    assert(select_model(q).group_by =~= q.group_by.deep_view());
    assert(select_model(q).order_by =~= q.order_by.deep_view());
}

} // verus!
