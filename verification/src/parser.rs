//! The recursive-descent parser: from the text of a statement to its tree.

use vstd::prelude::*;
use crate::ast::{
    lemma_empty_view, lemma_expr_model, lemma_push_view, lemma_select_model, name_view,
    Assignment, BinaryOperator, ColumnDef, Expr, Join, JoinKind, OrderKey, Select, SelectItem,
    SpecExpr, SpecJoin, SpecStatement, SpecTableRef, Statement, SubqueryKind, TableRef,
    UnaryOperator, WhenBranch,
};
use crate::error::{ParseError, ParseErrorKind};
use crate::grammar;
use crate::grammar::{
    binary_at, clause_at, expr_at, exprs_at, from_at, item_at, items_at, join_at, joins_at,
    key_at, keys_at, level_rank, select_at, test_at, when_at, whens_at, Goal, Source,
};
use crate::lexer::{tokenize, unquote};
use crate::text::{chars_of, is_text, lower_range};
use crate::token::{Keyword, Lexeme, Token};
use crate::value::{ColumnType, Value};

verus! {

/// The characters and the tokens of the statement that is being parsed.
pub struct Input<'a> {
    pub chars: &'a Vec<char>,
    pub tokens: &'a Vec<Lexeme>,
}

impl<'a> View for Input<'a> {
    type V = Source;

    open spec fn view(&self) -> Source {
        Source { chars: self.chars@, tokens: self.tokens@ }
    }
}

/// Whether a parser that takes at least one token gave what the grammar
/// gives at `pos`.
pub open spec fn reads<T: DeepView>(
    r: Result<(T, usize), ParseError>,
    src: Source,
    pos: usize,
    model: Result<(T::V, nat), ParseError>,
) -> bool {
    match r {
        Ok((x, end)) => pos < end <= src.tokens.len() && model == Ok::<(T::V, nat), ParseError>(
            (x.deep_view(), (end - pos - 1) as nat),
        ),
        Err(e) => model == Err::<(T::V, nat), ParseError>(e),
    }
}

/// Whether a parser that may take nothing gave what the grammar gives at
/// `pos`.
pub open spec fn takes<T: DeepView>(
    r: Result<(T, usize), ParseError>,
    src: Source,
    pos: usize,
    model: Result<(T::V, nat), ParseError>,
) -> bool {
    match r {
        Ok((x, end)) => pos <= end && (end <= src.tokens.len() || end == pos) && model == Ok::<
            (T::V, nat),
            ParseError,
        >((x.deep_view(), (end - pos) as nat)),
        Err(e) => model == Err::<(T::V, nat), ParseError>(e),
    }
}

/// A list that has `pre` before what `r` holds, and `k` tokens more.
pub open spec fn extend<T>(pre: Seq<T>, k: int, r: Result<(Seq<T>, nat), ParseError>) -> Result<
    (Seq<T>, nat),
    ParseError,
> {
    match r {
        Ok((rest, n)) => Ok((pre + rest, (k + n) as nat)),
        Err(e) => Err(e),
    }
}

proof fn lemma_extend_start<T>(r: Result<(Seq<T>, nat), ParseError>)
    ensures
        extend(Seq::<T>::empty(), 0, r) == r,
{
    if r is Ok {
        assert(Seq::<T>::empty() + r->Ok_0.0 =~= r->Ok_0.0);
    }
}

proof fn lemma_extend_step<T>(pre: Seq<T>, x: T, k: int, j: int, r: Result<(Seq<T>, nat), ParseError>)
    requires
        k >= 0,
        j >= 0,
    ensures
        extend(pre, k, extend(seq![x], j, r)) == extend(pre.push(x), k + j, r),
{
    if r is Ok {
        assert(pre + (seq![x] + r->Ok_0.0) =~= pre.push(x) + r->Ok_0.0);
    }
}

proof fn lemma_extend_last<T>(pre: Seq<T>, x: T, k: int, j: nat)
    requires
        k >= 0,
    ensures
        extend(pre, k, Ok((seq![x], j))) == Ok::<(Seq<T>, nat), ParseError>(
            (pre.push(x), (k + j) as nat),
        ),
{
    assert(pre + seq![x] =~= pre.push(x));
}

impl<'a> Input<'a> {
    /// The token at `pos + ahead`, if there is one.
    pub fn peek(&self, pos: usize, ahead: usize) -> (t: Option<Token>)
        ensures
            t == self@.peek(pos + ahead),
            t is Some ==> pos + ahead < self.tokens.len(),
    {
        if pos < self.tokens.len() && ahead < self.tokens.len() - pos {
            Some(self.tokens[pos + ahead].token)
        } else {
            None
        }
    }

    /// Whether the token at `pos + ahead` is `t`.
    pub fn is(&self, pos: usize, ahead: usize, t: Token) -> (r: bool)
        ensures
            r == (self@.peek(pos + ahead) == Some(t)),
            r ==> pos + ahead < self.tokens.len(),
    {
        match self.peek(pos, ahead) {
            Some(x) => x == t,
            None => false,
        }
    }

    /// Whether the token at `pos + ahead` is the keyword `k`.
    pub fn keyword(&self, pos: usize, ahead: usize, k: Keyword) -> (r: bool)
        ensures
            r == self@.keyword(pos + ahead, k),
            r ==> pos + ahead < self.tokens.len(),
    {
        self.is(pos, ahead, Token::Keyword(k))
    }

    /// The error for a token that has no place at `pos + ahead`.
    pub fn unexpected(&self, pos: usize, ahead: usize) -> (e: ParseError)
        ensures
            e == self@.unexpected(pos + ahead),
    {
        ParseError { position: self.at(pos, ahead), kind: ParseErrorKind::UnexpectedToken }
    }

    /// Where the token at `pos + ahead` begins in the statement.
    pub fn at(&self, pos: usize, ahead: usize) -> (p: usize)
        ensures
            p == self@.at(pos + ahead),
    {
        if pos < self.tokens.len() && ahead < self.tokens.len() - pos {
            self.tokens[pos + ahead].pos
        } else {
            self.chars.len()
        }
    }

    /// The characters of a quoted run, each doubled quote taken as one.
    pub fn unquoted(&self, start: usize, end: usize, q: char) -> (s: String)
        ensures
            s@ == unquote(self@.range(start, end), q),
    {
        let mut s = String::new();
        if !(start <= end && end <= self.chars.len()) {
            return s;
        }
        let v = self.chars;
        let ghost all = v@.subrange(start as int, end as int);
        let mut i: usize = start;
        assert(all.skip(0) =~= all);
        assert(Seq::<char>::empty() + unquote(all, q) =~= unquote(all, q));
        while i < end
            invariant
                start <= i <= end <= v.len(),
                all == v@.subrange(start as int, end as int),
                unquote(all, q) == s@ + unquote(all.skip(i - start), q),
            decreases end - i,
        {
            let ghost rest = all.skip(i - start);
            assert(rest[0] == v@[i as int]);
            if v[i] == q && end - i >= 2 && v[i + 1] == q {
                assert(rest[1] == v@[i + 1]);
                assert(rest.skip(2) =~= all.skip(i + 2 - start));
                let ghost before = s@;
                s.push(q);
                assert(s@ + unquote(rest.skip(2), q) =~= before + (seq![q] + unquote(
                    rest.skip(2),
                    q,
                )));
                i += 2;
            } else {
                assert(rest.drop_first() =~= all.skip(i + 1 - start));
                let ghost before = s@;
                s.push(v[i]);
                assert(s@ + unquote(rest.drop_first(), q) =~= before + (seq![rest[0]] + unquote(
                    rest.drop_first(),
                    q,
                )));
                i += 1;
            }
        }
        assert(unquote(all.skip(end - start), q) =~= Seq::<char>::empty());
        assert(s@ + Seq::<char>::empty() =~= s@);
        s
    }

    /// The name that the token at `pos + ahead` is, if it is one.
    pub fn name(&self, pos: usize, ahead: usize) -> (r: Option<String>)
        ensures
            name_view(r) == self@.name(pos + ahead),
            r is Some ==> pos + ahead < self.tokens.len(),
    {
        match self.peek(pos, ahead) {
            Some(Token::Name { start, end }) => Some(self.unquoted(start, end, '"')),
            _ => None,
        }
    }

    /// What stands in the way of a closing parenthesis at `pos`.
    pub fn unclosed(&self, open: usize, pos: usize) -> (r: Option<ParseError>)
        ensures
            r == self@.unclosed(open as int, pos as int),
            r is None ==> pos < self.tokens.len(),
    {
        match self.peek(pos, 0) {
            Some(Token::RParen) => None,
            Some(_) => Some(self.unexpected(pos, 0)),
            None => Some(
                ParseError { position: self.at(open, 0), kind: ParseErrorKind::UnbalancedParens },
            ),
        }
    }
}

/// The node for a literal.
fn literal(v: Value) -> (e: Expr)
    ensures
        e.deep_view() == SpecExpr::Literal(v@),
{
    let e = Expr::Literal(v);
    proof {
        lemma_expr_model(e);
    }
    e
}

/// The node for a column.
fn column_ref(table: Option<String>, name: String) -> (e: Expr)
    ensures
        e.deep_view() == (SpecExpr::ColumnRef { table: name_view(table), name: name@ }),
{
    let e = Expr::ColumnRef { table, name };
    proof {
        lemma_expr_model(e);
    }
    e
}

/// The node for `left op right`.
fn binary_node(op: BinaryOperator, left: Expr, right: Expr) -> (e: Expr)
    ensures
        e.deep_view() == grammar::binary(op, left.deep_view(), right.deep_view()),
{
    let e = Expr::BinaryOp { op, left: Box::new(left), right: Box::new(right) };
    proof {
        lemma_expr_model(e);
    }
    e
}

/// The node for `NOT operand`.
fn negation(operand: Expr) -> (e: Expr)
    ensures
        e.deep_view() == grammar::unary(UnaryOperator::Not, operand.deep_view()),
{
    let e = Expr::UnaryOp { operator: UnaryOperator::Not, operand: Box::new(operand) };
    proof {
        lemma_expr_model(e);
    }
    e
}

/// The node for `-operand`.
fn negative(operand: Expr) -> (e: Expr)
    ensures
        e.deep_view() == grammar::unary(UnaryOperator::Neg, operand.deep_view()),
{
    let e = Expr::UnaryOp { operator: UnaryOperator::Neg, operand: Box::new(operand) };
    proof {
        lemma_expr_model(e);
    }
    e
}

/// The node for `operand IS [NOT] NULL`.
fn null_test(operand: Expr, negated: bool) -> (e: Expr)
    ensures
        e.deep_view() == (SpecExpr::IsNull { operand: Box::new(operand.deep_view()), negated }),
{
    let e = Expr::IsNull { operand: Box::new(operand), negated };
    proof {
        lemma_expr_model(e);
    }
    e
}

/// The node for `operand [NOT] IN (list)`.
fn in_list(operand: Expr, list: Vec<Expr>, negated: bool) -> (e: Expr)
    ensures
        e.deep_view() == (SpecExpr::InList {
            operand: Box::new(operand.deep_view()),
            list: list.deep_view(),
            negated,
        }),
{
    let e = Expr::InList { operand: Box::new(operand), list, negated };
    proof {
        lemma_expr_model(e);
    }
    e
}

/// The node for a nested query.
fn subquery(kind: SubqueryKind, subject: Option<Expr>, query: Select, negated: bool) -> (e: Expr)
    ensures
        e.deep_view() == grammar::subquery(
            kind,
            match subject {
                Some(s) => Some(s.deep_view()),
                None => None,
            },
            query.deep_view(),
            negated,
        ),
{
    let e = Expr::Subquery {
        kind,
        subject: match subject {
            Some(s) => Some(Box::new(s)),
            None => None,
        },
        query: Box::new(query),
        negated,
    };
    proof {
        lemma_expr_model(e);
    }
    e
}

/// The node for a call.
fn function_call(name: String, args: Vec<Expr>, star: bool) -> (e: Expr)
    ensures
        e.deep_view() == (SpecExpr::FunctionCall { name: name@, args: args.deep_view(), star }),
        args@.len() == 0 ==> e.deep_view() == (SpecExpr::FunctionCall {
            name: name@,
            args: Seq::empty(),
            star,
        }),
{
    proof {
        if args@.len() == 0 {
            lemma_empty_view(args);
        }
    }
    let e = Expr::FunctionCall { name, args, star };
    proof {
        lemma_expr_model(e);
    }
    e
}

/// The node for a `CASE`.
fn case_when(branches: Vec<WhenBranch>, otherwise: Option<Expr>) -> (e: Expr)
    ensures
        e.deep_view() == (SpecExpr::CaseWhen {
            branches: branches.deep_view(),
            otherwise: match otherwise {
                Some(o) => Some(Box::new(o.deep_view())),
                None => None,
            },
        }),
{
    let e = Expr::CaseWhen {
        branches,
        otherwise: match otherwise {
            Some(o) => Some(Box::new(o)),
            None => None,
        },
    };
    proof {
        lemma_expr_model(e);
    }
    e
}

/// One branch of a `CASE`.
fn when_branch(condition: Expr, result: Expr) -> (w: WhenBranch)
    ensures
        w.deep_view() == (crate::ast::SpecWhenBranch {
            condition: condition.deep_view(),
            result: result.deep_view(),
        }),
{
    let w = WhenBranch { condition, result };
    proof {
        crate::ast::lemma_when_model(w);
    }
    w
}

/// The binary operator that a token is at a level of precedence.
fn binary_of(t: Token, level: u8) -> (r: Option<BinaryOperator>)
    ensures
        r == binary_at(t, level as int),
{
    if level == 0 {
        match t {
            Token::Keyword(Keyword::Or) => Some(BinaryOperator::Or),
            _ => None,
        }
    } else if level == 1 {
        match t {
            Token::Keyword(Keyword::And) => Some(BinaryOperator::And),
            _ => None,
        }
    } else if level == 3 {
        match t {
            Token::Eq => Some(BinaryOperator::Eq),
            Token::Ne => Some(BinaryOperator::Ne),
            Token::Lt => Some(BinaryOperator::Lt),
            Token::Le => Some(BinaryOperator::Le),
            Token::Gt => Some(BinaryOperator::Gt),
            Token::Ge => Some(BinaryOperator::Ge),
            _ => None,
        }
    } else if level == 4 {
        match t {
            Token::Plus => Some(BinaryOperator::Add),
            Token::Minus => Some(BinaryOperator::Sub),
            _ => None,
        }
    } else if level == 5 {
        match t {
            Token::Star => Some(BinaryOperator::Mul),
            Token::Slash => Some(BinaryOperator::Div),
            _ => None,
        }
    } else {
        None
    }
}

impl<'a> Input<'a> {
    /// An expression of the given level of precedence at `pos`.
    pub fn operand(&self, pos: usize, level: u8) -> (r: Result<(Expr, usize), ParseError>)
        ensures
            reads(r, self@, pos, expr_at(self@, Goal::Operand(level as int), pos as int)),
        decreases self@.left(pos as int), level_rank(level as int),
    {
        if self.peek(pos, 0).is_none() {
            return Err(self.unexpected(pos, 0));
        }
        if level > 5 {
            return self.signed(pos);
        }
        if level == 2 {
            if self.keyword(pos, 0, Keyword::Not) {
                match self.operand(pos + 1, 2) {
                    Ok((e, end)) => Ok((negation(e), end)),
                    Err(e) => Err(e),
                }
            } else {
                self.operand(pos, 3)
            }
        } else {
            match self.operand(pos, level + 1) {
                Ok((left, end)) => self.chain(left, end, level),
                Err(e) => Err(e),
            }
        }
    }

    /// What follows a left operand at `pos`.
    fn chain(&self, left: Expr, pos: usize, level: u8) -> (r: Result<(Expr, usize), ParseError>)
        requires
            level <= 5,
        ensures
            takes(r, self@, pos, expr_at(
                    self@,
                    Goal::Chain(left.deep_view(), level as int),
                    pos as int,
                )),
        decreases self@.left(pos as int), 2nat,
    {
        match self.peek(pos, 0) {
            None => Ok((left, pos)),
            Some(t) => match binary_of(t, level) {
                Some(op) => match self.operand(pos + 1, level + 1) {
                    Ok((right, end)) => self.chain(binary_node(op, left, right), end, level),
                    Err(e) => Err(e),
                },
                None => if level == 3 {
                    match self.test(left, pos) {
                        Ok((e, end)) => if end == pos {
                            Ok((e, pos))
                        } else {
                            self.chain(e, end, level)
                        },
                        Err(e) => Err(e),
                    }
                } else {
                    Ok((left, pos))
                },
            },
        }
    }

    /// The test at `pos`, if one begins there, applied to `left`; `left` as
    /// it is, and `pos`, where none does.
    fn test(&self, left: Expr, pos: usize) -> (r: Result<(Expr, usize), ParseError>)
        ensures
            match r {
                Ok((e, end)) => if end == pos {
                    e == left && test_at(self@, left.deep_view(), pos as int) is Ok && test_at(
                        self@,
                        left.deep_view(),
                        pos as int,
                    )->Ok_0.0 is None
                } else {
                    pos < end <= self.tokens.len() && test_at(
                        self@,
                        left.deep_view(),
                        pos as int,
                    ) == Ok::<(Option<SpecExpr>, nat), ParseError>(
                        (Some(e.deep_view()), (end - pos - 1) as nat),
                    )
                },
                Err(e) => test_at(self@, left.deep_view(), pos as int) == Err::<
                    (Option<SpecExpr>, nat),
                    ParseError,
                >(e),
            },
        decreases self@.left(pos as int), 1nat,
    {
        if self.keyword(pos, 0, Keyword::Is) {
            if self.keyword(pos, 1, Keyword::Null) {
                Ok((null_test(left, false), pos + 2))
            } else if self.keyword(pos, 1, Keyword::Not) && self.keyword(pos, 2, Keyword::Null) {
                Ok((null_test(left, true), pos + 3))
            } else {
                Err(self.unexpected(pos, 1))
            }
        } else if self.keyword(pos, 0, Keyword::In) {
            self.membership(left, pos + 1, false)
        } else if self.keyword(pos, 0, Keyword::Not) && self.keyword(pos, 1, Keyword::In) {
            self.membership(left, pos + 2, true)
        } else {
            Ok((left, pos))
        }
    }

    /// The parenthesised list or query of an `IN`.
    fn membership(&self, left: Expr, pos: usize, negated: bool) -> (r: Result<
        (Expr, usize),
        ParseError,
    >)
        ensures
            reads(
                r,
                self@,
                pos,
                expr_at(self@, Goal::Membership(left.deep_view(), negated), pos as int),
            ),
        decreases self@.left(pos as int), 0nat,
    {
        if !self.is(pos, 0, Token::LParen) {
            return Err(self.unexpected(pos, 0));
        }
        if self.keyword(pos, 1, Keyword::Select) {
            match self.select(pos + 1) {
                Ok((q, end)) => match self.unclosed(pos, end) {
                    None => Ok((subquery(SubqueryKind::In, Some(left), q, negated), end + 1)),
                    Some(e) => Err(e),
                },
                Err(e) => Err(e),
            }
        } else {
            match self.expr_list(pos + 1) {
                Ok((list, end)) => match self.unclosed(pos, end) {
                    None => Ok((in_list(left, list, negated), end + 1)),
                    Some(e) => Err(e),
                },
                Err(e) => Err(e),
            }
        }
    }

    /// A primary with its signs.
    fn signed(&self, pos: usize) -> (r: Result<(Expr, usize), ParseError>)
        ensures
            reads(r, self@, pos, expr_at(self@, Goal::Signed, pos as int)),
        decreases self@.left(pos as int), 2nat,
    {
        match self.peek(pos, 0) {
            Some(Token::Minus) => match self.signed(pos + 1) {
                Ok((e, end)) => Ok((negative(e), end)),
                Err(e) => Err(e),
            },
            Some(Token::Plus) => match self.signed(pos + 1) {
                Ok((e, end)) => Ok((e, end)),
                Err(e) => Err(e),
            },
            _ => self.primary(pos),
        }
    }

    /// A literal, a column, a call, a `CASE`, an `EXISTS`, or an expression
    /// or a query in parentheses.
    fn primary(&self, pos: usize) -> (r: Result<(Expr, usize), ParseError>)
        ensures
            reads(r, self@, pos, expr_at(self@, Goal::Primary, pos as int)),
        decreases self@.left(pos as int), 1nat,
    {
        match self.peek(pos, 0) {
            Some(Token::Integer(i)) => Ok((literal(Value::Integer(i)), pos + 1)),
            Some(Token::Real(x)) => Ok((literal(Value::Real(x)), pos + 1)),
            Some(Token::Text { start, end }) => Ok(
                (literal(Value::Text(self.unquoted(start, end, '\''))), pos + 1),
            ),
            Some(Token::Keyword(Keyword::Null)) => Ok((literal(Value::Null), pos + 1)),
            Some(Token::Name { start, end }) => {
                let name = self.unquoted(start, end, '"');
                if self.is(pos, 1, Token::LParen) {
                    self.call(name, pos + 1)
                } else if self.is(pos, 1, Token::Dot) {
                    match self.name(pos, 2) {
                        Some(column) => Ok((column_ref(Some(name), column), pos + 3)),
                        None => Err(self.unexpected(pos, 2)),
                    }
                } else {
                    Ok((column_ref(None, name), pos + 1))
                }
            },
            Some(Token::LParen) => {
                if self.keyword(pos, 1, Keyword::Select) {
                    match self.select(pos + 1) {
                        Ok((q, end)) => match self.unclosed(pos, end) {
                            None => Ok(
                                (subquery(SubqueryKind::Scalar, None, q, false), end + 1),
                            ),
                            Some(e) => Err(e),
                        },
                        Err(e) => Err(e),
                    }
                } else {
                    match self.operand(pos + 1, 0) {
                        Ok((e, end)) => match self.unclosed(pos, end) {
                            None => Ok((e, end + 1)),
                            Some(e) => Err(e),
                        },
                        Err(e) => Err(e),
                    }
                }
            },
            Some(Token::Keyword(Keyword::Exists)) => {
                if !self.is(pos, 1, Token::LParen) {
                    return Err(self.unexpected(pos, 1));
                }
                match self.select(pos + 2) {
                    Ok((q, end)) => match self.unclosed(pos + 1, end) {
                        None => Ok((subquery(SubqueryKind::Exists, None, q, false), end + 1)),
                        Some(e) => Err(e),
                    },
                    Err(e) => Err(e),
                }
            },
            Some(Token::Keyword(Keyword::Case)) => self.case(pos),
            _ => Err(self.unexpected(pos, 0)),
        }
    }

    /// A `CASE`, whose keyword stands at `pos`.
    fn case(&self, pos: usize) -> (r: Result<(Expr, usize), ParseError>)
        requires
            self@.keyword(pos as int, Keyword::Case),
        ensures
            reads(r, self@, pos, expr_at(self@, Goal::Primary, pos as int)),
        decreases self@.left(pos as int), 0nat,
    {
        assert(pos < self.tokens.len());
        match self.when_list(pos + 1) {
            Ok((branches, next)) => {
                if self.keyword(next, 0, Keyword::Else) {
                    match self.operand(next + 1, 0) {
                        Ok((e, end)) => if self.keyword(end, 0, Keyword::End) {
                            Ok((case_when(branches, Some(e)), end + 1))
                        } else {
                            Err(self.unexpected(end, 0))
                        },
                        Err(e) => Err(e),
                    }
                } else if self.keyword(next, 0, Keyword::End) {
                    Ok((case_when(branches, None), next + 1))
                } else {
                    Err(self.unexpected(next, 0))
                }
            },
            Err(e) => Err(e),
        }
    }

    /// The arguments of a call of `name` whose parenthesis opens at `pos`.
    fn call(&self, name: String, pos: usize) -> (r: Result<(Expr, usize), ParseError>)
        ensures
            takes(r, self@, pos, expr_at(self@, Goal::Call(name@), pos as int)),
            r is Ok ==> pos < r->Ok_0.1 <= self.tokens.len(),
        decreases self@.left(pos as int), 0nat,
    {
        if !self.is(pos, 0, Token::LParen) {
            return Err(self.unexpected(pos, 0));
        }
        if self.is(pos, 1, Token::RParen) {
            Ok((function_call(name, Vec::new(), false), pos + 2))
        } else if self.is(pos, 1, Token::Star) {
            match self.unclosed(pos, pos + 2) {
                None => Ok((function_call(name, Vec::new(), true), pos + 3)),
                Some(e) => Err(e),
            }
        } else {
            match self.expr_list(pos + 1) {
                Ok((args, end)) => match self.unclosed(pos, end) {
                    None => Ok((function_call(name, args, false), end + 1)),
                    Some(e) => Err(e),
                },
                Err(e) => Err(e),
            }
        }
    }

    /// One or more expressions with commas between them.
    #[verifier::rlimit(50)]
    pub fn expr_list(&self, pos: usize) -> (r: Result<(Vec<Expr>, usize), ParseError>)
        ensures
            reads(r, self@, pos, exprs_at(self@, Goal::ExprList, pos as int)),
        decreases self@.left(pos as int), 11nat,
    {
        let mut out: Vec<Expr> = Vec::new();
        let mut p = pos;
        proof {
            lemma_empty_view(out);
            lemma_extend_start(exprs_at(self@, Goal::ExprList, pos as int));
        }
        loop
            invariant
                p == pos || pos < p <= self.tokens.len(),
                exprs_at(self@, Goal::ExprList, pos as int) == extend(
                    out.deep_view(),
                    p - pos,
                    exprs_at(self@, Goal::ExprList, p as int),
                ),
            decreases self@.left(p as int),
        {
            if self.peek(p, 0).is_none() {
                return Err(self.unexpected(p, 0));
            }
            match self.operand(p, 0) {
                Err(e) => {
                    return Err(e);
                },
                Ok((e, end)) => {
                    let ghost before = out;
                    let ghost x = e;
                    out.push(e);
                    proof {
                        lemma_push_view(before, out, x);
                    }
                    if self.is(end, 0, Token::Comma) {
                        proof {
                            lemma_extend_step(
                                before.deep_view(),
                                x.deep_view(),
                                p - pos,
                                end + 1 - p,
                                exprs_at(self@, Goal::ExprList, end + 1),
                            );
                        }
                        p = end + 1;
                    } else {
                        proof {
                            lemma_extend_last(
                                before.deep_view(),
                                x.deep_view(),
                                p - pos,
                                (end - p - 1) as nat,
                            );
                        }
                        return Ok((out, end));
                    }
                },
            }
        }
    }

    /// One `WHEN condition THEN result`.
    fn when(&self, pos: usize) -> (r: Result<(WhenBranch, usize), ParseError>)
        ensures
            reads(r, self@, pos, when_at(self@, pos as int)),
        decreases self@.left(pos as int), 0nat,
    {
        if !self.keyword(pos, 0, Keyword::When) {
            return Err(self.unexpected(pos, 0));
        }
        match self.operand(pos + 1, 0) {
            Ok((condition, mid)) => if !self.keyword(mid, 0, Keyword::Then) {
                Err(self.unexpected(mid, 0))
            } else {
                match self.operand(mid + 1, 0) {
                    Ok((result, end)) => Ok((when_branch(condition, result), end)),
                    Err(e) => Err(e),
                }
            },
            Err(e) => Err(e),
        }
    }

    /// One or more `WHEN condition THEN result`.
    #[verifier::rlimit(50)]
    fn when_list(&self, pos: usize) -> (r: Result<(Vec<WhenBranch>, usize), ParseError>)
        ensures
            reads(r, self@, pos, whens_at(self@, pos as int)),
        decreases self@.left(pos as int), 1nat,
    {
        let mut out: Vec<WhenBranch> = Vec::new();
        let mut p = pos;
        proof {
            lemma_empty_view(out);
            lemma_extend_start(whens_at(self@, pos as int));
        }
        loop
            invariant
                p == pos || pos < p <= self.tokens.len(),
                whens_at(self@, pos as int) == extend(
                    out.deep_view(),
                    p - pos,
                    whens_at(self@, p as int),
                ),
            decreases self@.left(p as int),
        {
            match self.when(p) {
                Err(e) => {
                    return Err(e);
                },
                Ok((branch, end)) => {
                    let ghost before = out;
                    let ghost x = branch;
                    out.push(branch);
                    proof {
                        lemma_push_view(before, out, x);
                    }
                    if self.keyword(end, 0, Keyword::When) {
                        proof {
                            lemma_extend_step(
                                before.deep_view(),
                                x.deep_view(),
                                p - pos,
                                end - p,
                                whens_at(self@, end as int),
                            );
                        }
                        p = end;
                    } else {
                        proof {
                            lemma_extend_last(
                                before.deep_view(),
                                x.deep_view(),
                                p - pos,
                                (end - p - 1) as nat,
                            );
                        }
                        return Ok((out, end));
                    }
                },
            }
        }
    }

    /// A table's name with its optional alias.
    fn table_ref(&self, pos: usize) -> (r: Result<(TableRef, usize), ParseError>)
        ensures
            reads(r, self@, pos, grammar::table_ref(self@, pos as int)),
    {
        match self.name(pos, 0) {
            None => Err(self.unexpected(pos, 0)),
            Some(name) => if self.keyword(pos, 1, Keyword::As) {
                match self.name(pos, 2) {
                    Some(alias) => Ok((TableRef { name, alias: Some(alias) }, pos + 3)),
                    None => Err(self.unexpected(pos, 2)),
                }
            } else {
                match self.name(pos, 1) {
                    Some(alias) => Ok((TableRef { name, alias: Some(alias) }, pos + 2)),
                    None => Ok((TableRef { name, alias: None }, pos + 1)),
                }
            },
        }
    }

    /// The words that join a table at `pos`, if any do.
    fn join_head(&self, pos: usize) -> (r: Option<(JoinKind, usize)>)
        ensures
            match r {
                Some((kind, k)) => grammar::join_head(self@, pos as int) == Some((kind, k as nat))
                    && 1 <= k && pos + k <= self.tokens.len(),
                None => grammar::join_head(self@, pos as int) is None,
            },
    {
        if self.is(pos, 0, Token::Comma) {
            Some((JoinKind::Cross, 1))
        } else if self.keyword(pos, 0, Keyword::Join) {
            Some((JoinKind::Inner, 1))
        } else if self.keyword(pos, 0, Keyword::Cross) && self.keyword(pos, 1, Keyword::Join) {
            Some((JoinKind::Cross, 2))
        } else if self.keyword(pos, 0, Keyword::Inner) && self.keyword(pos, 1, Keyword::Join) {
            Some((JoinKind::Inner, 2))
        } else if self.keyword(pos, 0, Keyword::Left) && self.keyword(pos, 1, Keyword::Join) {
            Some((JoinKind::Left, 2))
        } else if self.keyword(pos, 0, Keyword::Left) && self.keyword(pos, 1, Keyword::Outer)
            && self.keyword(pos, 2, Keyword::Join) {
            Some((JoinKind::Left, 3))
        } else {
            None
        }
    }

    /// One joined table.
    fn join(&self, pos: usize) -> (r: Result<(Join, usize), ParseError>)
        ensures
            reads(r, self@, pos, join_at(self@, pos as int)),
        decreases self@.left(pos as int), 0nat,
    {
        let (kind, k) = match self.join_head(pos) {
            None => {
                return Err(self.unexpected(pos, 0));
            },
            Some(head) => head,
        };
        match self.table_ref(pos + k) {
            Err(e) => Err(e),
            Ok((table, next)) => {
                if kind == JoinKind::Cross {
                    Ok((join_node(kind, table, None), next))
                } else if !self.keyword(next, 0, Keyword::On) {
                    Err(self.unexpected(next, 0))
                } else {
                    match self.operand(next + 1, 0) {
                        Err(e) => Err(e),
                        Ok((e, end)) => Ok((join_node(kind, table, Some(e)), end)),
                    }
                }
            },
        }
    }

    /// The joins that follow the first table of a `FROM`.
    #[verifier::rlimit(50)]
    fn joins(&self, pos: usize) -> (r: Result<(Vec<Join>, usize), ParseError>)
        ensures
            takes(r, self@, pos, joins_at(self@, pos as int)),
        decreases self@.left(pos as int), 1nat,
    {
        let mut out: Vec<Join> = Vec::new();
        let mut p = pos;
        proof {
            lemma_empty_view(out);
            lemma_extend_start(joins_at(self@, pos as int));
        }
        loop
            invariant
                p == pos || pos < p <= self.tokens.len(),
                joins_at(self@, pos as int) == extend(
                    out.deep_view(),
                    p - pos,
                    joins_at(self@, p as int),
                ),
            decreases self@.left(p as int),
        {
            if self.join_head(p).is_none() {
                proof {
                    assert(out.deep_view() + Seq::<SpecJoin>::empty() =~= out.deep_view());
                }
                return Ok((out, p));
            }
            match self.join(p) {
                Err(e) => {
                    return Err(e);
                },
                Ok((join, end)) => {
                    let ghost before = out;
                    let ghost x = join;
                    out.push(join);
                    proof {
                        lemma_push_view(before, out, x);
                        lemma_extend_step(
                            before.deep_view(),
                            x.deep_view(),
                            p - pos,
                            end - p,
                            joins_at(self@, end as int),
                        );
                    }
                    p = end;
                },
            }
        }
    }

    /// One entry of a select list.
    fn item(&self, pos: usize) -> (r: Result<(SelectItem, usize), ParseError>)
        ensures
            reads(r, self@, pos, item_at(self@, pos as int)),
        decreases self@.left(pos as int), 11nat,
    {
        if self.is(pos, 0, Token::Star) {
            return Ok((star_item(), pos + 1));
        }
        match self.operand(pos, 0) {
            Ok((expr, end)) => if self.keyword(end, 0, Keyword::As) {
                match self.name(end, 1) {
                    Some(alias) => Ok((expr_item(expr, Some(alias)), end + 2)),
                    None => Err(self.unexpected(end, 1)),
                }
            } else {
                match self.name(end, 0) {
                    Some(alias) => Ok((expr_item(expr, Some(alias)), end + 1)),
                    None => Ok((expr_item(expr, None), end)),
                }
            },
            Err(e) => Err(e),
        }
    }

    /// One or more entries of a select list with commas between them.
    #[verifier::rlimit(50)]
    fn item_list(&self, pos: usize) -> (r: Result<(Vec<SelectItem>, usize), ParseError>)
        ensures
            reads(r, self@, pos, items_at(self@, pos as int)),
        decreases self@.left(pos as int), 12nat,
    {
        let mut out: Vec<SelectItem> = Vec::new();
        let mut p = pos;
        proof {
            lemma_empty_view(out);
            lemma_extend_start(items_at(self@, pos as int));
        }
        loop
            invariant
                p == pos || pos < p <= self.tokens.len(),
                items_at(self@, pos as int) == extend(
                    out.deep_view(),
                    p - pos,
                    items_at(self@, p as int),
                ),
            decreases self@.left(p as int),
        {
            if self.peek(p, 0).is_none() {
                return Err(self.unexpected(p, 0));
            }
            match self.item(p) {
                Err(e) => {
                    return Err(e);
                },
                Ok((e, end)) => {
                    let ghost before = out;
                    let ghost x = e;
                    out.push(e);
                    proof {
                        lemma_push_view(before, out, x);
                    }
                    if self.is(end, 0, Token::Comma) {
                        proof {
                            lemma_extend_step(
                                before.deep_view(),
                                x.deep_view(),
                                p - pos,
                                end + 1 - p,
                                items_at(self@, end + 1),
                            );
                        }
                        p = end + 1;
                    } else {
                        proof {
                            lemma_extend_last(
                                before.deep_view(),
                                x.deep_view(),
                                p - pos,
                                (end - p - 1) as nat,
                            );
                        }
                        return Ok((out, end));
                    }
                },
            }
        }
    }

    /// One sort key.
    fn key(&self, pos: usize) -> (r: Result<(OrderKey, usize), ParseError>)
        ensures
            reads(r, self@, pos, key_at(self@, pos as int)),
        decreases self@.left(pos as int), 11nat,
    {
        match self.operand(pos, 0) {
            Err(e) => Err(e),
            Ok((e, mid)) => {
                let descending = self.keyword(mid, 0, Keyword::Desc);
                let end = if descending || self.keyword(mid, 0, Keyword::Asc) {
                    mid + 1
                } else {
                    mid
                };
                Ok((order_key(e, descending), end))
            },
        }
    }

    /// One or more sort keys with commas between them.
    #[verifier::rlimit(50)]
    fn key_list(&self, pos: usize) -> (r: Result<(Vec<OrderKey>, usize), ParseError>)
        ensures
            reads(r, self@, pos, keys_at(self@, Goal::KeyList, pos as int)),
        decreases self@.left(pos as int), 12nat,
    {
        let mut out: Vec<OrderKey> = Vec::new();
        let mut p = pos;
        proof {
            lemma_empty_view(out);
            lemma_extend_start(keys_at(self@, Goal::KeyList, pos as int));
        }
        loop
            invariant
                p == pos || pos < p <= self.tokens.len(),
                keys_at(self@, Goal::KeyList, pos as int) == extend(
                    out.deep_view(),
                    p - pos,
                    keys_at(self@, Goal::KeyList, p as int),
                ),
            decreases self@.left(p as int),
        {
            if self.peek(p, 0).is_none() {
                return Err(self.unexpected(p, 0));
            }
            match self.key(p) {
                Err(e) => {
                    return Err(e);
                },
                Ok((key, end)) => {
                    let ghost before = out;
                    let ghost x = key;
                    out.push(key);
                    proof {
                        lemma_push_view(before, out, x);
                    }
                    if self.is(end, 0, Token::Comma) {
                        proof {
                            lemma_extend_step(
                                before.deep_view(),
                                x.deep_view(),
                                p - pos,
                                end + 1 - p,
                                keys_at(self@, Goal::KeyList, end + 1),
                            );
                        }
                        p = end + 1;
                    } else {
                        proof {
                            lemma_extend_last(
                                before.deep_view(),
                                x.deep_view(),
                                p - pos,
                                (end - p - 1) as nat,
                            );
                        }
                        return Ok((out, end));
                    }
                },
            }
        }
    }

    /// The expression after the keyword `k` at `pos`, if `k` stands there.
    fn clause(&self, pos: usize, k: Keyword) -> (r: Result<(Option<Expr>, usize), ParseError>)
        ensures
            takes(r, self@, pos, clause_at(self@, k, pos as int)),
        decreases self@.left(pos as int), 0nat,
    {
        if self.keyword(pos, 0, k) {
            match self.operand(pos + 1, 0) {
                Ok((e, end)) => Ok((Some(e), end)),
                Err(e) => Err(e),
            }
        } else {
            Ok((None, pos))
        }
    }

    /// The `FROM` clause at `pos`, if one stands there.
    fn from_clause(&self, pos: usize) -> (r: Result<
        (Option<TableRef>, Vec<Join>, usize),
        ParseError,
    >)
        ensures
            match r {
                Ok((table, joins, end)) => pos <= end && (end <= self.tokens.len() || end == pos)
                    && from_at(self@, pos as int) == Ok::<
                    (Option<SpecTableRef>, Seq<SpecJoin>, nat),
                    ParseError,
                >((table.deep_view(), joins.deep_view(), (end - pos) as nat)),
                Err(e) => from_at(self@, pos as int) == Err::<
                    (Option<SpecTableRef>, Seq<SpecJoin>, nat),
                    ParseError,
                >(e),
            },
        decreases self@.left(pos as int), 2nat,
    {
        if self.keyword(pos, 0, Keyword::From) {
            match self.table_ref(pos + 1) {
                Ok((table, next)) => match self.joins(next) {
                    Ok((list, end)) => Ok((Some(table), list, end)),
                    Err(e) => Err(e),
                },
                Err(e) => Err(e),
            }
        } else {
            let list: Vec<Join> = Vec::new();
            proof {
                lemma_empty_view(list);
            }
            Ok((None, list, pos))
        }
    }

    /// The `GROUP BY` clause at `pos`, if one stands there.
    fn group_clause(&self, pos: usize) -> (r: Result<(Vec<Expr>, usize), ParseError>)
        ensures
            takes(r, self@, pos, exprs_at(self@, Goal::GroupBy, pos as int)),
        decreases self@.left(pos as int), 0nat,
    {
        if self.keyword(pos, 0, Keyword::Group) {
            if !self.keyword(pos, 1, Keyword::By) {
                Err(self.unexpected(pos, 1))
            } else {
                self.expr_list(pos + 2)
            }
        } else {
            let list: Vec<Expr> = Vec::new();
            proof {
                lemma_empty_view(list);
            }
            Ok((list, pos))
        }
    }

    /// The `ORDER BY` clause at `pos`, if one stands there.
    fn order_clause(&self, pos: usize) -> (r: Result<(Vec<OrderKey>, usize), ParseError>)
        ensures
            takes(r, self@, pos, keys_at(self@, Goal::OrderBy, pos as int)),
        decreases self@.left(pos as int), 0nat,
    {
        if self.keyword(pos, 0, Keyword::Order) {
            if !self.keyword(pos, 1, Keyword::By) {
                Err(self.unexpected(pos, 1))
            } else {
                self.key_list(pos + 2)
            }
        } else {
            let list: Vec<OrderKey> = Vec::new();
            proof {
                lemma_empty_view(list);
            }
            Ok((list, pos))
        }
    }

    /// The `LIMIT` clause at `pos`, if one stands there.
    fn limit_clause(&self, pos: usize) -> (r: Result<(Option<u64>, usize), ParseError>)
        ensures
            match r {
                Ok((limit, end)) => pos <= end && (end <= self.tokens.len() || end == pos)
                    && grammar::limit_clause(self@, pos as int) == Ok::<
                    (Option<u64>, nat),
                    ParseError,
                >((limit, (end - pos) as nat)),
                Err(e) => grammar::limit_clause(self@, pos as int) == Err::<
                    (Option<u64>, nat),
                    ParseError,
                >(e),
            },
    {
        if self.keyword(pos, 0, Keyword::Limit) {
            match self.peek(pos, 1) {
                Some(Token::Integer(n)) => if n >= 0 {
                    Ok((Some(n as u64), pos + 2))
                } else {
                    Err(self.unexpected(pos, 1))
                },
                _ => Err(self.unexpected(pos, 1)),
            }
        } else {
            Ok((None, pos))
        }
    }

    /// The clauses of a query after its select list.
    #[verifier::rlimit(60)]
    fn tail(&self, items: Vec<SelectItem>, pos: usize) -> (r: Result<(Select, usize), ParseError>)
        ensures
            takes(r, self@, pos, select_at(self@, Goal::Tail(items.deep_view()), pos as int)),
        decreases self@.left(pos as int), 3nat,
    {
        let (from, joins, a) = match self.from_clause(pos) {
            Err(e) => {
                return Err(e);
            },
            Ok(found) => found,
        };
        let (filter, b) = match self.clause(a, Keyword::Where) {
            Err(e) => {
                return Err(e);
            },
            Ok(found) => found,
        };
        let (group_by, c) = match self.group_clause(b) {
            Err(e) => {
                return Err(e);
            },
            Ok(found) => found,
        };
        let (having, d) = match self.clause(c, Keyword::Having) {
            Err(e) => {
                return Err(e);
            },
            Ok(found) => found,
        };
        let (order_by, f) = match self.order_clause(d) {
            Err(e) => {
                return Err(e);
            },
            Ok(found) => found,
        };
        let (limit, g) = match self.limit_clause(f) {
            Err(e) => {
                return Err(e);
            },
            Ok(found) => found,
        };
        let q = Select { items, from, joins, filter, group_by, having, order_by, limit };
        proof {
            lemma_select_model(q);
        }
        Ok((q, g))
    }

    /// A query, whose `SELECT` stands at `pos`.
    pub fn select(&self, pos: usize) -> (r: Result<(Select, usize), ParseError>)
        ensures
            reads(r, self@, pos, select_at(self@, Goal::Select, pos as int)),
        decreases self@.left(pos as int), 13nat,
    {
        if !self.keyword(pos, 0, Keyword::Select) {
            return Err(self.unexpected(pos, 0));
        }
        match self.item_list(pos + 1) {
            Ok((items, next)) => self.tail(items, next),
            Err(e) => Err(e),
        }
    }
}

/// The node for a join.
fn join_node(kind: JoinKind, table: TableRef, on: Option<Expr>) -> (j: Join)
    ensures
        j.deep_view() == (SpecJoin { kind, table: table.deep_view(), on: on.deep_view() }),
{
    let j = Join { kind, table, on };
    proof {
        crate::ast::lemma_join_model(j);
    }
    j
}

/// The select item `*`.
fn star_item() -> (item: SelectItem)
    ensures
        item.deep_view() == crate::ast::SpecSelectItem::Star,
{
    let item = SelectItem::Star;
    proof {
        crate::ast::lemma_item_model(item);
    }
    item
}

/// The select item for an expression.
fn expr_item(expr: Expr, alias: Option<String>) -> (item: SelectItem)
    ensures
        item.deep_view() == (crate::ast::SpecSelectItem::Expr {
            expr: expr.deep_view(),
            alias: name_view(alias),
        }),
{
    let item = SelectItem::Expr { expr, alias };
    proof {
        crate::ast::lemma_item_model(item);
    }
    item
}

/// A sort key.
fn order_key(expr: Expr, descending: bool) -> (k: OrderKey)
    ensures
        k.deep_view() == (crate::ast::SpecOrderKey { expr: expr.deep_view(), descending }),
{
    let k = OrderKey { expr, descending };
    proof {
        crate::ast::lemma_key_model(k);
    }
    k
}

/// The type that a word names in a column's definition.
fn column_type(word: &String) -> (r: Option<ColumnType>)
    ensures
        r == grammar::column_type(word@),
{
    let v = chars_of(word.as_str());
    let w = lower_range(&v, 0, v.len());
    assert(v@.subrange(0, v.len() as int) =~= v@);
    if is_text(&w, "integer") || is_text(&w, "int") {
        Some(ColumnType::Integer)
    } else if is_text(&w, "real") {
        Some(ColumnType::Real)
    } else if is_text(&w, "text") || is_text(&w, "varchar") {
        Some(ColumnType::Text)
    } else {
        None
    }
}

/// The outcome of parsing a statement, as the grammar sees it.
pub open spec fn statement_result(r: Result<Statement, ParseError>) -> Result<
    SpecStatement,
    ParseError,
> {
    match r {
        Ok(s) => Ok(s.deep_view()),
        Err(e) => Err(e),
    }
}

impl<'a> Input<'a> {
    /// A column's definition.
    fn column_def(&self, pos: usize) -> (r: Result<(ColumnDef, usize), ParseError>)
        ensures
            reads(r, self@, pos, grammar::column_def(self@, pos as int)),
    {
        let name = match self.name(pos, 0) {
            None => {
                return Err(self.unexpected(pos, 0));
            },
            Some(name) => name,
        };
        let word = match self.name(pos, 1) {
            None => {
                return Err(self.unexpected(pos, 1));
            },
            Some(word) => word,
        };
        let ty = match column_type(&word) {
            None => {
                return Err(self.unexpected(pos, 1));
            },
            Some(ty) => ty,
        };
        if self.keyword(pos, 2, Keyword::Not) {
            if self.keyword(pos, 3, Keyword::Null) {
                Ok((ColumnDef { name, ty, not_null: true }, pos + 4))
            } else {
                Err(self.unexpected(pos, 3))
            }
        } else {
            Ok((ColumnDef { name, ty, not_null: false }, pos + 2))
        }
    }

    /// One or more column definitions with commas between them.
    #[verifier::rlimit(50)]
    fn column_defs(&self, pos: usize) -> (r: Result<(Vec<ColumnDef>, usize), ParseError>)
        ensures
            reads(r, self@, pos, grammar::column_defs(self@, pos as int)),
    {
        let mut out: Vec<ColumnDef> = Vec::new();
        let mut p = pos;
        proof {
            lemma_empty_view(out);
            lemma_extend_start(grammar::column_defs(self@, pos as int));
        }
        loop
            invariant
                p == pos || pos < p <= self.tokens.len(),
                grammar::column_defs(self@, pos as int) == extend(
                    out.deep_view(),
                    p - pos,
                    grammar::column_defs(self@, p as int),
                ),
            decreases self@.left(p as int),
        {
            match self.column_def(p) {
                Err(e) => {
                    return Err(e);
                },
                Ok((def, end)) => {
                    let ghost before = out;
                    let ghost x = def;
                    out.push(def);
                    proof {
                        lemma_push_view(before, out, x);
                    }
                    if self.is(end, 0, Token::Comma) {
                        proof {
                            lemma_extend_step(
                                before.deep_view(),
                                x.deep_view(),
                                p - pos,
                                end + 1 - p,
                                grammar::column_defs(self@, end + 1),
                            );
                        }
                        p = end + 1;
                    } else {
                        proof {
                            lemma_extend_last(
                                before.deep_view(),
                                x.deep_view(),
                                p - pos,
                                (end - p - 1) as nat,
                            );
                        }
                        return Ok((out, end));
                    }
                },
            }
        }
    }

    /// One or more parenthesised lists of expressions with commas between
    /// them.
    #[verifier::rlimit(50)]
    fn tuples(&self, pos: usize) -> (r: Result<(Vec<Vec<Expr>>, usize), ParseError>)
        ensures
            reads(r, self@, pos, grammar::tuples(self@, pos as int)),
    {
        let mut out: Vec<Vec<Expr>> = Vec::new();
        let mut p = pos;
        proof {
            lemma_empty_view(out);
            lemma_extend_start(grammar::tuples(self@, pos as int));
        }
        loop
            invariant
                p == pos || pos < p <= self.tokens.len(),
                grammar::tuples(self@, pos as int) == extend(
                    out.deep_view(),
                    p - pos,
                    grammar::tuples(self@, p as int),
                ),
            decreases self@.left(p as int),
        {
            if !self.is(p, 0, Token::LParen) {
                return Err(self.unexpected(p, 0));
            }
            let (row, close) = match self.expr_list(p + 1) {
                Err(e) => {
                    return Err(e);
                },
                Ok(found) => found,
            };
            match self.unclosed(p, close) {
                Some(e) => {
                    return Err(e);
                },
                None => {},
            }
            let end = close + 1;
            let ghost before = out;
            let ghost x = row;
            out.push(row);
            proof {
                lemma_push_view(before, out, x);
            }
            if self.is(end, 0, Token::Comma) {
                proof {
                    lemma_extend_step(
                        before.deep_view(),
                        x.deep_view(),
                        p - pos,
                        end + 1 - p,
                        grammar::tuples(self@, end + 1),
                    );
                }
                p = end + 1;
            } else {
                proof {
                    lemma_extend_last(
                        before.deep_view(),
                        x.deep_view(),
                        p - pos,
                        (end - p - 1) as nat,
                    );
                }
                return Ok((out, end));
            }
        }
    }

    /// One or more `column = value` with commas between them.
    #[verifier::rlimit(50)]
    fn assignments(&self, pos: usize) -> (r: Result<(Vec<Assignment>, usize), ParseError>)
        ensures
            reads(r, self@, pos, grammar::assignments(self@, pos as int)),
    {
        let mut out: Vec<Assignment> = Vec::new();
        let mut p = pos;
        proof {
            lemma_empty_view(out);
            lemma_extend_start(grammar::assignments(self@, pos as int));
        }
        loop
            invariant
                p == pos || pos < p <= self.tokens.len(),
                grammar::assignments(self@, pos as int) == extend(
                    out.deep_view(),
                    p - pos,
                    grammar::assignments(self@, p as int),
                ),
            decreases self@.left(p as int),
        {
            let column = match self.name(p, 0) {
                None => {
                    return Err(self.unexpected(p, 0));
                },
                Some(column) => column,
            };
            if !self.is(p, 1, Token::Eq) {
                return Err(self.unexpected(p, 1));
            }
            let (value, end) = match self.operand(p + 2, 0) {
                Err(e) => {
                    return Err(e);
                },
                Ok(found) => found,
            };
            let a = Assignment { column, value };
            let ghost before = out;
            let ghost x = a;
            out.push(a);
            proof {
                lemma_push_view(before, out, x);
            }
            if self.is(end, 0, Token::Comma) {
                proof {
                    lemma_extend_step(
                        before.deep_view(),
                        x.deep_view(),
                        p - pos,
                        end + 1 - p,
                        grammar::assignments(self@, end + 1),
                    );
                }
                p = end + 1;
            } else {
                proof {
                    lemma_extend_last(
                        before.deep_view(),
                        x.deep_view(),
                        p - pos,
                        (end - p - 1) as nat,
                    );
                }
                return Ok((out, end));
            }
        }
    }

    /// `CREATE TABLE name (definitions)`.
    fn create_table(&self) -> (r: Result<(Statement, usize), ParseError>)
        ensures
            reads(r, self@, 0, grammar::create_table(self@)),
    {
        if !self.keyword(0, 1, Keyword::Table) {
            return Err(self.unexpected(0, 1));
        }
        let name = match self.name(0, 2) {
            None => {
                return Err(self.unexpected(0, 2));
            },
            Some(name) => name,
        };
        if !self.is(0, 3, Token::LParen) {
            return Err(self.unexpected(0, 3));
        }
        match self.column_defs(4) {
            Err(e) => Err(e),
            Ok((columns, end)) => match self.unclosed(3, end) {
                Some(e) => Err(e),
                None => Ok((Statement::CreateTable { name, columns }, end + 1)),
            },
        }
    }

    /// `DROP TABLE name`.
    fn drop_table(&self) -> (r: Result<(Statement, usize), ParseError>)
        ensures
            reads(r, self@, 0, grammar::drop_table(self@)),
    {
        if !self.keyword(0, 1, Keyword::Table) {
            return Err(self.unexpected(0, 1));
        }
        match self.name(0, 2) {
            None => Err(self.unexpected(0, 2)),
            Some(name) => Ok((Statement::DropTable { name }, 3)),
        }
    }

    /// One or more names with commas between them.
    fn name_list(&self, pos: usize) -> (r: Result<(Vec<String>, usize), ParseError>)
        ensures
            reads(r, self@, pos, grammar::name_list(self@, pos as int)),
    {
        let mut out: Vec<String> = Vec::new();
        let mut p = pos;
        proof {
            lemma_empty_view(out);
            lemma_extend_start(grammar::name_list(self@, pos as int));
        }
        loop
            invariant
                p == pos || pos < p <= self.tokens.len(),
                grammar::name_list(self@, pos as int) == extend(
                    out.deep_view(),
                    p - pos,
                    grammar::name_list(self@, p as int),
                ),
            decreases self@.left(p as int),
        {
            let name = match self.name(p, 0) {
                None => {
                    return Err(self.unexpected(p, 0));
                },
                Some(name) => name,
            };
            let ghost before = out;
            let ghost x = name;
            out.push(name);
            proof {
                lemma_push_view(before, out, x);
            }
            if self.is(p, 1, Token::Comma) {
                proof {
                    lemma_extend_step(
                        before.deep_view(),
                        x.deep_view(),
                        p - pos,
                        2,
                        grammar::name_list(self@, p + 2),
                    );
                }
                p = p + 2;
            } else {
                proof {
                    lemma_extend_last(before.deep_view(), x.deep_view(), p - pos, 0);
                }
                return Ok((out, p + 1));
            }
        }
    }

    /// The columns that an `INSERT` names after its table, if it names any.
    fn insert_columns(&self, pos: usize) -> (r: Result<(Option<Vec<String>>, usize), ParseError>)
        ensures
            takes(r, self@, pos, grammar::insert_columns(self@, pos as int)),
    {
        if self.is(pos, 0, Token::LParen) {
            match self.name_list(pos + 1) {
                Err(e) => Err(e),
                Ok((names, end)) => match self.unclosed(pos, end) {
                    Some(e) => Err(e),
                    None => Ok((Some(names), end + 1)),
                },
            }
        } else {
            Ok((None, pos))
        }
    }

    /// `INSERT INTO name [(columns)] VALUES rows`.
    fn insert(&self) -> (r: Result<(Statement, usize), ParseError>)
        ensures
            reads(r, self@, 0, grammar::insert(self@)),
    {
        if !self.keyword(0, 1, Keyword::Into) {
            return Err(self.unexpected(0, 1));
        }
        let table = match self.name(0, 2) {
            None => {
                return Err(self.unexpected(0, 2));
            },
            Some(table) => table,
        };
        let (columns, next) = match self.insert_columns(3) {
            Err(e) => {
                return Err(e);
            },
            Ok(found) => found,
        };
        if !self.keyword(next, 0, Keyword::Values) {
            return Err(self.unexpected(next, 0));
        }
        match self.tuples(next + 1) {
            Err(e) => Err(e),
            Ok((rows, end)) => Ok((Statement::Insert { table, names: columns, rows }, end)),
        }
    }

    /// `UPDATE name SET assignments [WHERE condition]`.
    fn update(&self) -> (r: Result<(Statement, usize), ParseError>)
        ensures
            reads(r, self@, 0, grammar::update(self@)),
    {
        let table = match self.name(0, 1) {
            None => {
                return Err(self.unexpected(0, 1));
            },
            Some(table) => table,
        };
        if !self.keyword(0, 2, Keyword::SetTo) {
            return Err(self.unexpected(0, 2));
        }
        match self.assignments(3) {
            Err(e) => Err(e),
            Ok((assignments, next)) => match self.clause(next, Keyword::Where) {
                Err(e) => Err(e),
                Ok((filter, end)) => Ok((Statement::Update { table, assignments, filter }, end)),
            },
        }
    }

    /// `DELETE FROM name [WHERE condition]`.
    fn delete(&self) -> (r: Result<(Statement, usize), ParseError>)
        ensures
            reads(r, self@, 0, grammar::delete(self@)),
    {
        if !self.keyword(0, 1, Keyword::From) {
            return Err(self.unexpected(0, 1));
        }
        let table = match self.name(0, 2) {
            None => {
                return Err(self.unexpected(0, 2));
            },
            Some(table) => table,
        };
        match self.clause(3, Keyword::Where) {
            Err(e) => Err(e),
            Ok((filter, end)) => Ok((Statement::Delete { table, filter }, end)),
        }
    }

    /// The statement that begins with the first token.
    fn statement_head(&self) -> (r: Result<(Statement, usize), ParseError>)
        ensures
            reads(r, self@, 0, grammar::statement_head(self@)),
    {
        match self.peek(0, 0) {
            None => Err(self.unexpected(0, 0)),
            Some(Token::Keyword(Keyword::Select)) => match self.select(0) {
                Ok((q, end)) => Ok((Statement::Select(q), end)),
                Err(e) => Err(e),
            },
            Some(Token::Keyword(Keyword::Create)) => self.create_table(),
            Some(Token::Keyword(Keyword::Drop)) => self.drop_table(),
            Some(Token::Keyword(Keyword::Insert)) => self.insert(),
            Some(Token::Keyword(Keyword::Update)) => self.update(),
            Some(Token::Keyword(Keyword::Delete)) => self.delete(),
            Some(_) => Err(
                ParseError { position: self.at(0, 0), kind: ParseErrorKind::UnknownKeyword },
            ),
        }
    }

    /// The one statement that the tokens are.
    pub fn statement(&self) -> (r: Result<Statement, ParseError>)
        ensures
            statement_result(r) == grammar::statement(self@),
    {
        match self.statement_head() {
            Err(e) => Err(e),
            Ok((s, end)) => if self.peek(end, 0).is_none() {
                Ok(s)
            } else {
                Err(self.unexpected(end, 0))
            },
        }
    }
}

/// The statement that a sequence of characters is.
pub fn parse_chars(chars: &Vec<char>) -> (r: Result<Statement, ParseError>)
    ensures
        statement_result(r) == grammar::parse_spec(chars@),
{
    match tokenize(chars) {
        Err(e) => Err(e),
        Ok(tokens) => {
            let input = Input { chars, tokens: &tokens };
            input.statement()
        },
    }
}

/// The statement that a text is.
pub fn parse(text: &str) -> (r: Result<Statement, ParseError>)
    ensures
        statement_result(r) == grammar::parse_spec(text@),
{
    let chars = chars_of(text);
    parse_chars(&chars)
}

} // verus!
