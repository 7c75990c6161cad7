//! The grammar of the dialect, as a function from the tokens of a statement
//! to its tree.
//!
//! A function that reads something of at least one token gives, beside what
//! it read, the number of tokens it took beyond the first. A function that
//! may read nothing gives the number of tokens it took.

use vstd::prelude::*;
use crate::ast::{
    BinaryOperator, JoinKind, SpecAssignment, SpecColumnDef, SpecExpr, SpecJoin, SpecOrderKey,
    SpecSelect, SpecSelectItem, SpecStatement, SpecTableRef, SpecWhenBranch, SubqueryKind,
    UnaryOperator,
};
use crate::error::{ParseError, ParseErrorKind};
use crate::lexer::{lex, unquote};
use crate::text::lower_text;
use crate::token::{Keyword, Lexeme, Token};
use crate::value::{ColumnType, SpecValue};

verus! {

/// A statement as the parser sees it: its characters and its tokens.
pub struct Source {
    pub chars: Seq<char>,
    pub tokens: Seq<Lexeme>,
}

impl Source {
    /// The token at `pos`, if there is one.
    pub open spec fn peek(self, pos: int) -> Option<Token> {
        if 0 <= pos < self.tokens.len() {
            Some(self.tokens[pos].token)
        } else {
            None
        }
    }

    /// Whether the token at `pos` is the keyword `k`.
    pub open spec fn keyword(self, pos: int, k: Keyword) -> bool {
        self.peek(pos) == Some(Token::Keyword(k))
    }

    /// How many tokens are left at `pos`.
    pub open spec fn left(self, pos: int) -> nat {
        if pos < self.tokens.len() {
            (self.tokens.len() - pos) as nat
        } else {
            0
        }
    }

    /// The index of the character at which the token at `pos` begins, or the
    /// length of the statement where no token is left.
    pub open spec fn at(self, pos: int) -> usize {
        if 0 <= pos < self.tokens.len() {
            self.tokens[pos].pos
        } else {
            self.chars.len() as usize
        }
    }

    /// The error for a token that has no place at `pos`.
    pub open spec fn unexpected(self, pos: int) -> ParseError {
        ParseError { position: self.at(pos), kind: ParseErrorKind::UnexpectedToken }
    }

    /// The characters between two indices, nothing where they are no range.
    pub open spec fn range(self, start: usize, end: usize) -> Seq<char> {
        if start <= end <= self.chars.len() {
            self.chars.subrange(start as int, end as int)
        } else {
            Seq::empty()
        }
    }

    /// The name that the token at `pos` is, if it is one.
    pub open spec fn name(self, pos: int) -> Option<Seq<char>> {
        match self.peek(pos) {
            Some(Token::Name { start, end }) => Some(unquote(self.range(start, end), '"')),
            _ => None,
        }
    }

    /// What stands in the way of a closing parenthesis at `pos`, for the one
    /// opened at `open`: nothing, the end of the statement, or another token.
    pub open spec fn unclosed(self, open: int, pos: int) -> Option<ParseError> {
        match self.peek(pos) {
            Some(Token::RParen) => None,
            Some(_) => Some(self.unexpected(pos)),
            None => Some(
                ParseError { position: self.at(open), kind: ParseErrorKind::UnbalancedParens },
            ),
        }
    }
}

/// The binary operator that a token is at a level of precedence: 0 for `OR`,
/// 1 for `AND`, 3 for comparisons, 4 for sums, 5 for products.
pub open spec fn binary_at(t: Token, level: int) -> Option<BinaryOperator> {
    if level == 0 {
        if t == Token::Keyword(Keyword::Or) {
            Some(BinaryOperator::Or)
        } else {
            None
        }
    } else if level == 1 {
        if t == Token::Keyword(Keyword::And) {
            Some(BinaryOperator::And)
        } else {
            None
        }
    } else if level == 3 {
        match t {
            Token::Eq => Some(BinaryOperator::Eq),
            Token::Ne => Some(BinaryOperator::Ne),
            Token::Lt => Some(BinaryOperator::Lt),
            Token::Le => Some(BinaryOperator::Le),
            Token::Gt => Some(BinaryOperator::Gt),
            Token::Ge => Some(BinaryOperator::Ge),
            _ => None,
        }
    } else if level == 4 {
        match t {
            Token::Plus => Some(BinaryOperator::Add),
            Token::Minus => Some(BinaryOperator::Sub),
            _ => None,
        }
    } else if level == 5 {
        match t {
            Token::Star => Some(BinaryOperator::Mul),
            Token::Slash => Some(BinaryOperator::Div),
            _ => None,
        }
    } else {
        None
    }
}

/// The place of a level in the order of the recursion.
pub open spec fn level_rank(level: int) -> nat {
    if 0 <= level <= 5 {
        (10 - level) as nat
    } else {
        3
    }
}

/// The expression `left op right`.
pub open spec fn binary(op: BinaryOperator, left: SpecExpr, right: SpecExpr) -> SpecExpr {
    SpecExpr::BinaryOp { op, left: Box::new(left), right: Box::new(right) }
}

/// The expression `operator operand`.
pub open spec fn unary(operator: UnaryOperator, operand: SpecExpr) -> SpecExpr {
    SpecExpr::UnaryOp { operator, operand: Box::new(operand) }
}

/// What the parser is asked to read at a position.
pub enum Goal {
    /// An expression of a level of precedence: an operand of the next level,
    /// then as many operators of this level as follow, each with its right
    /// operand, grouped from the left. Level 2 is `NOT`, a prefix; past level
    /// 5 stand the signs and the primaries.
    Operand(int),
    /// What follows a left operand: the operators of the level with their
    /// right operands, and at level 3 the tests `IS NULL` and `IN` too.
    Chain(SpecExpr, int),
    /// The test `IS [NOT] NULL` or `[NOT] IN (...)`, if one begins here,
    /// applied to the operand.
    Test(SpecExpr),
    /// The parenthesised list or query of an `IN`, negated or not.
    Membership(SpecExpr, bool),
    /// A primary with its signs.
    Signed,
    /// A literal, a column, a call, a `CASE`, an `EXISTS`, or an expression
    /// or a query in parentheses.
    Primary,
    /// The arguments of a call of the given name, from the parenthesis on.
    Call(Seq<char>),
    /// One or more expressions with commas between them.
    ExprList,
    /// One `WHEN condition THEN result`.
    When,
    /// One or more `WHEN condition THEN result`.
    WhenList,
    /// One joined table: the words that join it, its name and alias, and
    /// its `ON` condition unless it is a cross join.
    Join,
    /// The joins that follow the first table of a `FROM`.
    Joins,
    /// One entry of a select list.
    Item,
    /// One or more entries of a select list with commas between them.
    ItemList,
    /// One sort key, with `ASC` or `DESC` if it is there.
    Key,
    /// One or more sort keys with commas between them.
    KeyList,
    /// The expression after the given keyword, if the keyword stands here.
    Clause(Keyword),
    /// The `FROM` clause, if one stands here.
    From,
    /// The `GROUP BY` clause, if one stands here.
    GroupBy,
    /// The `ORDER BY` clause, if one stands here.
    OrderBy,
    /// The clauses of a query after its select list, which is given.
    Tail(Seq<SpecSelectItem>),
    /// A query, from its `SELECT` on.
    Select,
}

/// What the parser read.
pub enum Piece {
    Expr(SpecExpr),
    Test(Option<SpecExpr>),
    Optional(Option<SpecExpr>),
    Exprs(Seq<SpecExpr>),
    When(SpecWhenBranch),
    Whens(Seq<SpecWhenBranch>),
    Join(SpecJoin),
    Joins(Seq<SpecJoin>),
    Key(SpecOrderKey),
    Item(SpecSelectItem),
    Items(Seq<SpecSelectItem>),
    Keys(Seq<SpecOrderKey>),
    From(Option<SpecTableRef>, Seq<SpecJoin>),
    Select(SpecSelect),
}

/// The place of a goal in the order of the recursion: a goal may ask for a
/// goal of lower rank at the same position, and for any goal further on.
pub open spec fn rank(goal: Goal) -> nat {
    match goal {
        Goal::Operand(level) => level_rank(level),
        Goal::Chain(_, _) => 2,
        Goal::Test(_) => 1,
        Goal::Membership(_, _) => 0,
        Goal::Signed => 2,
        Goal::Primary => 1,
        Goal::Call(_) => 0,
        Goal::ExprList => 11,
        Goal::When => 0,
        Goal::WhenList => 1,
        Goal::Join => 0,
        Goal::Joins => 1,
        Goal::Item => 11,
        Goal::ItemList => 12,
        Goal::Key => 11,
        Goal::KeyList => 12,
        Goal::Clause(_) => 0,
        Goal::From => 2,
        Goal::GroupBy => 0,
        Goal::OrderBy => 0,
        Goal::Tail(_) => 3,
        Goal::Select => 13,
    }
}

/// The expression that a nested query is.
pub open spec fn subquery(
    kind: SubqueryKind,
    subject: Option<SpecExpr>,
    query: SpecSelect,
    negated: bool,
) -> SpecExpr {
    SpecExpr::Subquery {
        kind,
        subject: match subject {
            Some(s) => Some(Box::new(s)),
            None => None,
        },
        query: Box::new(query),
        negated,
    }
}

/// A table's name with its optional alias, after `AS` or bare.
pub open spec fn table_ref(src: Source, pos: int) -> Result<(SpecTableRef, nat), ParseError> {
    match src.name(pos) {
        None => Err(src.unexpected(pos)),
        Some(name) => if src.keyword(pos + 1, Keyword::As) {
            match src.name(pos + 2) {
                Some(alias) => Ok((SpecTableRef { name, alias: Some(alias) }, 2nat)),
                None => Err(src.unexpected(pos + 2)),
            }
        } else {
            match src.name(pos + 1) {
                Some(alias) => Ok((SpecTableRef { name, alias: Some(alias) }, 1nat)),
                None => Ok((SpecTableRef { name, alias: None }, 0nat)),
            }
        },
    }
}

/// The words that join a table at `pos`, if any do: the kind of join and the
/// number of tokens before the table's name.
pub open spec fn join_head(src: Source, pos: int) -> Option<(JoinKind, nat)> {
    if src.peek(pos) == Some(Token::Comma) {
        Some((JoinKind::Cross, 1nat))
    } else if src.keyword(pos, Keyword::Join) {
        Some((JoinKind::Inner, 1nat))
    } else if src.keyword(pos, Keyword::Cross) && src.keyword(pos + 1, Keyword::Join) {
        Some((JoinKind::Cross, 2nat))
    } else if src.keyword(pos, Keyword::Inner) && src.keyword(pos + 1, Keyword::Join) {
        Some((JoinKind::Inner, 2nat))
    } else if src.keyword(pos, Keyword::Left) && src.keyword(pos + 1, Keyword::Join) {
        Some((JoinKind::Left, 2nat))
    } else if src.keyword(pos, Keyword::Left) && src.keyword(pos + 1, Keyword::Outer)
        && src.keyword(pos + 2, Keyword::Join) {
        Some((JoinKind::Left, 3nat))
    } else {
        None
    }
}

/// The `LIMIT` clause at `pos`, if one stands there.
pub open spec fn limit_clause(src: Source, pos: int) -> Result<(Option<u64>, nat), ParseError> {
    if src.keyword(pos, Keyword::Limit) {
        match src.peek(pos + 1) {
            Some(Token::Integer(n)) => if n >= 0 {
                Ok((Some(n as u64), 2nat))
            } else {
                Err(src.unexpected(pos + 1))
            },
            _ => Err(src.unexpected(pos + 1)),
        }
    } else {
        Ok((None, 0nat))
    }
}

/// What stands at `pos` for a goal. Beside what was read stands the number of
/// tokens that it took: for a goal that may read nothing (`Chain`, `Joins`,
/// `Clause`, `From`, `GroupBy`, `OrderBy`, `Tail`) all of them, for `Call`
/// all of them from the parenthesis on, and for every other goal those
/// beyond the first.
pub open spec fn parse(src: Source, goal: Goal, pos: int) -> Result<(Piece, nat), ParseError>
    decreases src.left(pos), rank(goal),
{
    match goal {
        Goal::Operand(level) => {
            if src.peek(pos) is None {
                Err(src.unexpected(pos))
            } else if level < 0 || level > 5 {
                parse(src, Goal::Signed, pos)
            } else if level == 2 {
                if src.keyword(pos, Keyword::Not) {
                    match parse(src, Goal::Operand(2), pos + 1) {
                        Ok((p, m)) => Ok(
                            (Piece::Expr(unary(UnaryOperator::Not, p->Expr_0)), m + 1),
                        ),
                        Err(e) => Err(e),
                    }
                } else {
                    parse(src, Goal::Operand(3), pos)
                }
            } else {
                match parse(src, Goal::Operand(level + 1), pos) {
                    Ok((p, m)) => match parse(src, Goal::Chain(p->Expr_0, level), pos + 1 + m) {
                        Ok((q, n)) => Ok((q, m + n)),
                        Err(e) => Err(e),
                    },
                    Err(e) => Err(e),
                }
            }
        },
        Goal::Chain(left, level) => match src.peek(pos) {
            None => Ok((Piece::Expr(left), 0nat)),
            Some(t) => match binary_at(t, level) {
                Some(op) => match parse(src, Goal::Operand(level + 1), pos + 1) {
                    Ok((p, m)) => match parse(
                        src,
                        Goal::Chain(binary(op, left, p->Expr_0), level),
                        pos + 2 + m,
                    ) {
                        Ok((q, n)) => Ok((q, 2 + m + n)),
                        Err(e) => Err(e),
                    },
                    Err(e) => Err(e),
                },
                None => if level == 3 {
                    match parse(src, Goal::Test(left), pos) {
                        Ok((p, m)) => match p->Test_0 {
                            Some(e) => match parse(src, Goal::Chain(e, level), pos + 1 + m) {
                                Ok((q, n)) => Ok((q, 1 + m + n)),
                                Err(e) => Err(e),
                            },
                            None => Ok((Piece::Expr(left), 0nat)),
                        },
                        Err(e) => Err(e),
                    }
                } else {
                    Ok((Piece::Expr(left), 0nat))
                },
            },
        },
        Goal::Test(left) => {
            if src.keyword(pos, Keyword::Is) {
                if src.keyword(pos + 1, Keyword::Null) {
                    Ok(
                        (
                            Piece::Test(
                                Some(SpecExpr::IsNull { operand: Box::new(left), negated: false }),
                            ),
                            1nat,
                        ),
                    )
                } else if src.keyword(pos + 1, Keyword::Not) && src.keyword(
                    pos + 2,
                    Keyword::Null,
                ) {
                    Ok(
                        (
                            Piece::Test(
                                Some(SpecExpr::IsNull { operand: Box::new(left), negated: true }),
                            ),
                            2nat,
                        ),
                    )
                } else {
                    Err(src.unexpected(pos + 1))
                }
            } else if src.keyword(pos, Keyword::In) {
                match parse(src, Goal::Membership(left, false), pos + 1) {
                    Ok((p, m)) => Ok((Piece::Test(Some(p->Expr_0)), m + 1)),
                    Err(e) => Err(e),
                }
            } else if src.keyword(pos, Keyword::Not) && src.keyword(pos + 1, Keyword::In) {
                match parse(src, Goal::Membership(left, true), pos + 2) {
                    Ok((p, m)) => Ok((Piece::Test(Some(p->Expr_0)), m + 2)),
                    Err(e) => Err(e),
                }
            } else {
                Ok((Piece::Test(None), 0nat))
            }
        },
        Goal::Membership(left, negated) => {
            if src.peek(pos) != Some(Token::LParen) {
                Err(src.unexpected(pos))
            } else if src.keyword(pos + 1, Keyword::Select) {
                match parse(src, Goal::Select, pos + 1) {
                    Ok((p, m)) => match src.unclosed(pos, pos + 2 + m) {
                        None => Ok(
                            (
                                Piece::Expr(
                                    subquery(SubqueryKind::In, Some(left), p->Select_0, negated),
                                ),
                                m + 2,
                            ),
                        ),
                        Some(e) => Err(e),
                    },
                    Err(e) => Err(e),
                }
            } else {
                match parse(src, Goal::ExprList, pos + 1) {
                    Ok((p, m)) => match src.unclosed(pos, pos + 2 + m) {
                        None => Ok(
                            (
                                Piece::Expr(
                                    SpecExpr::InList {
                                        operand: Box::new(left),
                                        list: p->Exprs_0,
                                        negated,
                                    },
                                ),
                                m + 2,
                            ),
                        ),
                        Some(e) => Err(e),
                    },
                    Err(e) => Err(e),
                }
            }
        },
        Goal::Signed => match src.peek(pos) {
            Some(Token::Minus) => match parse(src, Goal::Signed, pos + 1) {
                Ok((p, m)) => Ok((Piece::Expr(unary(UnaryOperator::Neg, p->Expr_0)), m + 1)),
                Err(e) => Err(e),
            },
            Some(Token::Plus) => match parse(src, Goal::Signed, pos + 1) {
                Ok((p, m)) => Ok((p, m + 1)),
                Err(e) => Err(e),
            },
            _ => parse(src, Goal::Primary, pos),
        },
        Goal::Primary => match src.peek(pos) {
            Some(Token::Integer(i)) => Ok(
                (Piece::Expr(SpecExpr::Literal(SpecValue::Integer(i))), 0nat),
            ),
            Some(Token::Real(r)) => Ok((Piece::Expr(SpecExpr::Literal(SpecValue::Real(r))), 0nat)),
            Some(Token::Text { start, end }) => Ok(
                (
                    Piece::Expr(
                        SpecExpr::Literal(SpecValue::Text(unquote(src.range(start, end), '\''))),
                    ),
                    0nat,
                ),
            ),
            Some(Token::Keyword(Keyword::Null)) => Ok(
                (Piece::Expr(SpecExpr::Literal(SpecValue::Null)), 0nat),
            ),
            Some(Token::Name { start, end }) => {
                let name = unquote(src.range(start, end), '"');
                if src.peek(pos + 1) == Some(Token::LParen) {
                    parse(src, Goal::Call(name), pos + 1)
                } else if src.peek(pos + 1) == Some(Token::Dot) {
                    match src.name(pos + 2) {
                        Some(column) => Ok(
                            (
                                Piece::Expr(
                                    SpecExpr::ColumnRef { table: Some(name), name: column },
                                ),
                                2nat,
                            ),
                        ),
                        None => Err(src.unexpected(pos + 2)),
                    }
                } else {
                    Ok((Piece::Expr(SpecExpr::ColumnRef { table: None, name }), 0nat))
                }
            },
            Some(Token::LParen) => {
                if src.keyword(pos + 1, Keyword::Select) {
                    match parse(src, Goal::Select, pos + 1) {
                        Ok((p, m)) => match src.unclosed(pos, pos + 2 + m) {
                            None => Ok(
                                (
                                    Piece::Expr(
                                        subquery(SubqueryKind::Scalar, None, p->Select_0, false),
                                    ),
                                    m + 2,
                                ),
                            ),
                            Some(e) => Err(e),
                        },
                        Err(e) => Err(e),
                    }
                } else {
                    match parse(src, Goal::Operand(0), pos + 1) {
                        Ok((p, m)) => match src.unclosed(pos, pos + 2 + m) {
                            None => Ok((p, m + 2)),
                            Some(e) => Err(e),
                        },
                        Err(e) => Err(e),
                    }
                }
            },
            Some(Token::Keyword(Keyword::Exists)) => {
                if src.peek(pos + 1) != Some(Token::LParen) {
                    Err(src.unexpected(pos + 1))
                } else {
                    match parse(src, Goal::Select, pos + 2) {
                        Ok((p, m)) => match src.unclosed(pos + 1, pos + 3 + m) {
                            None => Ok(
                                (
                                    Piece::Expr(
                                        subquery(SubqueryKind::Exists, None, p->Select_0, false),
                                    ),
                                    m + 3,
                                ),
                            ),
                            Some(e) => Err(e),
                        },
                        Err(e) => Err(e),
                    }
                }
            },
            Some(Token::Keyword(Keyword::Case)) => match parse(src, Goal::WhenList, pos + 1) {
                Ok((p, m)) => {
                    let next = pos + 2 + m;
                    if src.keyword(next, Keyword::Else) {
                        match parse(src, Goal::Operand(0), next + 1) {
                            Ok((q, n)) => if src.keyword(next + 2 + n, Keyword::End) {
                                Ok(
                                    (
                                        Piece::Expr(
                                            SpecExpr::CaseWhen {
                                                branches: p->Whens_0,
                                                otherwise: Some(Box::new(q->Expr_0)),
                                            },
                                        ),
                                        m + n + 4,
                                    ),
                                )
                            } else {
                                Err(src.unexpected(next + 2 + n))
                            },
                            Err(e) => Err(e),
                        }
                    } else if src.keyword(next, Keyword::End) {
                        Ok(
                            (
                                Piece::Expr(
                                    SpecExpr::CaseWhen { branches: p->Whens_0, otherwise: None },
                                ),
                                m + 2,
                            ),
                        )
                    } else {
                        Err(src.unexpected(next))
                    }
                },
                Err(e) => Err(e),
            },
            _ => Err(src.unexpected(pos)),
        },
        Goal::Call(name) => {
            if src.peek(pos) != Some(Token::LParen) {
                Err(src.unexpected(pos))
            } else if src.peek(pos + 1) == Some(Token::RParen) {
                Ok(
                    (
                        Piece::Expr(
                            SpecExpr::FunctionCall { name, args: Seq::empty(), star: false },
                        ),
                        2nat,
                    ),
                )
            } else if src.peek(pos + 1) == Some(Token::Star) {
                match src.unclosed(pos, pos + 2) {
                    None => Ok(
                        (
                            Piece::Expr(
                                SpecExpr::FunctionCall { name, args: Seq::empty(), star: true },
                            ),
                            3nat,
                        ),
                    ),
                    Some(e) => Err(e),
                }
            } else {
                match parse(src, Goal::ExprList, pos + 1) {
                    Ok((p, m)) => match src.unclosed(pos, pos + 2 + m) {
                        None => Ok(
                            (
                                Piece::Expr(
                                    SpecExpr::FunctionCall {
                                        name,
                                        args: p->Exprs_0,
                                        star: false,
                                    },
                                ),
                                m + 3,
                            ),
                        ),
                        Some(e) => Err(e),
                    },
                    Err(e) => Err(e),
                }
            }
        },
        Goal::ExprList => {
            if src.peek(pos) is None {
                Err(src.unexpected(pos))
            } else {
                match parse(src, Goal::Operand(0), pos) {
                    Ok((p, m)) => if src.peek(pos + 1 + m) == Some(Token::Comma) {
                        match parse(src, Goal::ExprList, pos + 2 + m) {
                            Ok((rest, n)) => Ok(
                                (Piece::Exprs(seq![p->Expr_0] + rest->Exprs_0), m + n + 2),
                            ),
                            Err(e) => Err(e),
                        }
                    } else {
                        Ok((Piece::Exprs(seq![p->Expr_0]), m))
                    },
                    Err(e) => Err(e),
                }
            }
        },
        Goal::When => {
            if !src.keyword(pos, Keyword::When) {
                Err(src.unexpected(pos))
            } else {
                match parse(src, Goal::Operand(0), pos + 1) {
                    Ok((c, m)) => if !src.keyword(pos + 2 + m, Keyword::Then) {
                        Err(src.unexpected(pos + 2 + m))
                    } else {
                        match parse(src, Goal::Operand(0), pos + 3 + m) {
                            Ok((r, n)) => Ok(
                                (
                                    Piece::When(
                                        SpecWhenBranch { condition: c->Expr_0, result: r->Expr_0 },
                                    ),
                                    m + n + 3,
                                ),
                            ),
                            Err(e) => Err(e),
                        }
                    },
                    Err(e) => Err(e),
                }
            }
        },
        Goal::WhenList => match parse(src, Goal::When, pos) {
            Ok((p, m)) => if src.keyword(pos + 1 + m, Keyword::When) {
                match parse(src, Goal::WhenList, pos + 1 + m) {
                    Ok((rest, n)) => Ok(
                        (Piece::Whens(seq![p->When_0] + rest->Whens_0), m + n + 1),
                    ),
                    Err(e) => Err(e),
                }
            } else {
                Ok((Piece::Whens(seq![p->When_0]), m))
            },
            Err(e) => Err(e),
        },
        Goal::Join => match join_head(src, pos) {
            None => Err(src.unexpected(pos)),
            Some((kind, k)) => match table_ref(src, pos + k) {
                Err(e) => Err(e),
                Ok((table, m)) => {
                    let next = pos + k + 1 + m;
                    if kind == JoinKind::Cross {
                        Ok((Piece::Join(SpecJoin { kind, table, on: None }), k + m))
                    } else if !src.keyword(next, Keyword::On) {
                        Err(src.unexpected(next))
                    } else {
                        match parse(src, Goal::Operand(0), next + 1) {
                            Ok((on, j)) => Ok(
                                (
                                    Piece::Join(SpecJoin { kind, table, on: Some(on->Expr_0) }),
                                    k + m + j + 2,
                                ),
                            ),
                            Err(e) => Err(e),
                        }
                    }
                },
            },
        },
        Goal::Joins => if join_head(src, pos) is None {
            Ok((Piece::Joins(Seq::empty()), 0nat))
        } else {
            match parse(src, Goal::Join, pos) {
                Ok((p, m)) => match parse(src, Goal::Joins, pos + 1 + m) {
                    Ok((rest, n)) => Ok(
                        (Piece::Joins(seq![p->Join_0] + rest->Joins_0), m + n + 1),
                    ),
                    Err(e) => Err(e),
                },
                Err(e) => Err(e),
            }
        },
        Goal::Item => {
            if src.peek(pos) == Some(Token::Star) {
                Ok((Piece::Item(SpecSelectItem::Star), 0nat))
            } else {
                match parse(src, Goal::Operand(0), pos) {
                    Ok((p, m)) => if src.keyword(pos + 1 + m, Keyword::As) {
                        match src.name(pos + 2 + m) {
                            Some(alias) => Ok(
                                (
                                    Piece::Item(
                                        SpecSelectItem::Expr {
                                            expr: p->Expr_0,
                                            alias: Some(alias),
                                        },
                                    ),
                                    m + 2,
                                ),
                            ),
                            None => Err(src.unexpected(pos + 2 + m)),
                        }
                    } else {
                        match src.name(pos + 1 + m) {
                            Some(alias) => Ok(
                                (
                                    Piece::Item(
                                        SpecSelectItem::Expr {
                                            expr: p->Expr_0,
                                            alias: Some(alias),
                                        },
                                    ),
                                    m + 1,
                                ),
                            ),
                            None => Ok(
                                (
                                    Piece::Item(
                                        SpecSelectItem::Expr { expr: p->Expr_0, alias: None },
                                    ),
                                    m,
                                ),
                            ),
                        }
                    },
                    Err(e) => Err(e),
                }
            }
        },
        Goal::ItemList => {
            if src.peek(pos) is None {
                Err(src.unexpected(pos))
            } else {
                match parse(src, Goal::Item, pos) {
                    Ok((p, m)) => if src.peek(pos + 1 + m) == Some(Token::Comma) {
                        match parse(src, Goal::ItemList, pos + 2 + m) {
                            Ok((rest, n)) => Ok(
                                (Piece::Items(seq![p->Item_0] + rest->Items_0), m + n + 2),
                            ),
                            Err(e) => Err(e),
                        }
                    } else {
                        Ok((Piece::Items(seq![p->Item_0]), m))
                    },
                    Err(e) => Err(e),
                }
            }
        },
        Goal::Key => match parse(src, Goal::Operand(0), pos) {
            Ok((p, m)) => {
                let descending = src.keyword(pos + 1 + m, Keyword::Desc);
                let d: nat = if descending || src.keyword(pos + 1 + m, Keyword::Asc) {
                    1
                } else {
                    0
                };
                Ok((Piece::Key(SpecOrderKey { expr: p->Expr_0, descending }), m + d))
            },
            Err(e) => Err(e),
        },
        Goal::KeyList => {
            if src.peek(pos) is None {
                Err(src.unexpected(pos))
            } else {
                match parse(src, Goal::Key, pos) {
                    Ok((p, m)) => if src.peek(pos + 1 + m) == Some(Token::Comma) {
                        match parse(src, Goal::KeyList, pos + 2 + m) {
                            Ok((rest, n)) => Ok(
                                (Piece::Keys(seq![p->Key_0] + rest->Keys_0), m + n + 2),
                            ),
                            Err(e) => Err(e),
                        }
                    } else {
                        Ok((Piece::Keys(seq![p->Key_0]), m))
                    },
                    Err(e) => Err(e),
                }
            }
        },
        Goal::Clause(k) => {
            if src.keyword(pos, k) {
                match parse(src, Goal::Operand(0), pos + 1) {
                    Ok((p, m)) => Ok((Piece::Optional(Some(p->Expr_0)), m + 2)),
                    Err(e) => Err(e),
                }
            } else {
                Ok((Piece::Optional(None), 0nat))
            }
        },
        Goal::From => {
            if src.keyword(pos, Keyword::From) {
                match table_ref(src, pos + 1) {
                    Ok((table, m)) => match parse(src, Goal::Joins, pos + 2 + m) {
                        Ok((p, n)) => Ok((Piece::From(Some(table), p->Joins_0), m + n + 2)),
                        Err(e) => Err(e),
                    },
                    Err(e) => Err(e),
                }
            } else {
                Ok((Piece::From(None, Seq::empty()), 0nat))
            }
        },
        Goal::GroupBy => {
            if src.keyword(pos, Keyword::Group) {
                if !src.keyword(pos + 1, Keyword::By) {
                    Err(src.unexpected(pos + 1))
                } else {
                    match parse(src, Goal::ExprList, pos + 2) {
                        Ok((p, m)) => Ok((p, m + 3)),
                        Err(e) => Err(e),
                    }
                }
            } else {
                Ok((Piece::Exprs(Seq::empty()), 0nat))
            }
        },
        Goal::OrderBy => {
            if src.keyword(pos, Keyword::Order) {
                if !src.keyword(pos + 1, Keyword::By) {
                    Err(src.unexpected(pos + 1))
                } else {
                    match parse(src, Goal::KeyList, pos + 2) {
                        Ok((p, m)) => Ok((p, m + 3)),
                        Err(e) => Err(e),
                    }
                }
            } else {
                Ok((Piece::Keys(Seq::empty()), 0nat))
            }
        },
        Goal::Tail(items) => match parse(src, Goal::From, pos) {
            Err(e) => Err(e),
            Ok((from, a)) => match parse(src, Goal::Clause(Keyword::Where), pos + a) {
                Err(e) => Err(e),
                Ok((filter, b)) => match parse(src, Goal::GroupBy, pos + a + b) {
                    Err(e) => Err(e),
                    Ok((group_by, c)) => match parse(
                        src,
                        Goal::Clause(Keyword::Having),
                        pos + a + b + c,
                    ) {
                        Err(e) => Err(e),
                        Ok((having, d)) => match parse(src, Goal::OrderBy, pos + a + b + c + d) {
                            Err(e) => Err(e),
                            Ok((order_by, f)) => match limit_clause(
                                src,
                                pos + a + b + c + d + f,
                            ) {
                                Err(e) => Err(e),
                                Ok((limit, g)) => Ok(
                                    (
                                        Piece::Select(
                                            SpecSelect {
                                                items,
                                                from: from->From_0,
                                                joins: from->From_1,
                                                filter: filter->Optional_0,
                                                group_by: group_by->Exprs_0,
                                                having: having->Optional_0,
                                                order_by: order_by->Keys_0,
                                                limit,
                                            },
                                        ),
                                        a + b + c + d + f + g,
                                    ),
                                ),
                            },
                        },
                    },
                },
            },
        },
        Goal::Select => {
            if !src.keyword(pos, Keyword::Select) {
                Err(src.unexpected(pos))
            } else {
                match parse(src, Goal::ItemList, pos + 1) {
                    Ok((p, m)) => match parse(src, Goal::Tail(p->Items_0), pos + 2 + m) {
                        Ok((q, n)) => Ok((q, m + n + 1)),
                        Err(e) => Err(e),
                    },
                    Err(e) => Err(e),
                }
            }
        },
    }
}

/// The expression read for a goal.
pub open spec fn expr_at(src: Source, goal: Goal, pos: int) -> Result<(SpecExpr, nat), ParseError> {
    match parse(src, goal, pos) {
        Ok((p, n)) => Ok((p->Expr_0, n)),
        Err(e) => Err(e),
    }
}

/// The test read after an operand, if one stands at `pos`.
pub open spec fn test_at(src: Source, left: SpecExpr, pos: int) -> Result<
    (Option<SpecExpr>, nat),
    ParseError,
> {
    match parse(src, Goal::Test(left), pos) {
        Ok((p, n)) => Ok((p->Test_0, n)),
        Err(e) => Err(e),
    }
}

/// The expression read after the keyword `k`, if `k` stands at `pos`.
pub open spec fn clause_at(src: Source, k: Keyword, pos: int) -> Result<
    (Option<SpecExpr>, nat),
    ParseError,
> {
    match parse(src, Goal::Clause(k), pos) {
        Ok((p, n)) => Ok((p->Optional_0, n)),
        Err(e) => Err(e),
    }
}

/// The expressions read for a goal.
pub open spec fn exprs_at(src: Source, goal: Goal, pos: int) -> Result<
    (Seq<SpecExpr>, nat),
    ParseError,
> {
    match parse(src, goal, pos) {
        Ok((p, n)) => Ok((p->Exprs_0, n)),
        Err(e) => Err(e),
    }
}

/// The `WHEN` branch read at `pos`.
pub open spec fn when_at(src: Source, pos: int) -> Result<(SpecWhenBranch, nat), ParseError> {
    match parse(src, Goal::When, pos) {
        Ok((p, n)) => Ok((p->When_0, n)),
        Err(e) => Err(e),
    }
}

/// The join read at `pos`.
pub open spec fn join_at(src: Source, pos: int) -> Result<(SpecJoin, nat), ParseError> {
    match parse(src, Goal::Join, pos) {
        Ok((p, n)) => Ok((p->Join_0, n)),
        Err(e) => Err(e),
    }
}

/// The sort key read at `pos`.
pub open spec fn key_at(src: Source, pos: int) -> Result<(SpecOrderKey, nat), ParseError> {
    match parse(src, Goal::Key, pos) {
        Ok((p, n)) => Ok((p->Key_0, n)),
        Err(e) => Err(e),
    }
}

/// The branches of a `CASE` read at `pos`.
pub open spec fn whens_at(src: Source, pos: int) -> Result<(Seq<SpecWhenBranch>, nat), ParseError> {
    match parse(src, Goal::WhenList, pos) {
        Ok((p, n)) => Ok((p->Whens_0, n)),
        Err(e) => Err(e),
    }
}

/// The joins read at `pos`.
pub open spec fn joins_at(src: Source, pos: int) -> Result<(Seq<SpecJoin>, nat), ParseError> {
    match parse(src, Goal::Joins, pos) {
        Ok((p, n)) => Ok((p->Joins_0, n)),
        Err(e) => Err(e),
    }
}

/// The select item read at `pos`.
pub open spec fn item_at(src: Source, pos: int) -> Result<(SpecSelectItem, nat), ParseError> {
    match parse(src, Goal::Item, pos) {
        Ok((p, n)) => Ok((p->Item_0, n)),
        Err(e) => Err(e),
    }
}

/// The select list read at `pos`.
pub open spec fn items_at(src: Source, pos: int) -> Result<(Seq<SpecSelectItem>, nat), ParseError> {
    match parse(src, Goal::ItemList, pos) {
        Ok((p, n)) => Ok((p->Items_0, n)),
        Err(e) => Err(e),
    }
}

/// The sort keys read for a goal.
pub open spec fn keys_at(src: Source, goal: Goal, pos: int) -> Result<
    (Seq<SpecOrderKey>, nat),
    ParseError,
> {
    match parse(src, goal, pos) {
        Ok((p, n)) => Ok((p->Keys_0, n)),
        Err(e) => Err(e),
    }
}

/// The `FROM` clause read at `pos`.
pub open spec fn from_at(src: Source, pos: int) -> Result<
    (Option<SpecTableRef>, Seq<SpecJoin>, nat),
    ParseError,
> {
    match parse(src, Goal::From, pos) {
        Ok((p, n)) => Ok((p->From_0, p->From_1, n)),
        Err(e) => Err(e),
    }
}

/// The query read for a goal.
pub open spec fn select_at(src: Source, goal: Goal, pos: int) -> Result<
    (SpecSelect, nat),
    ParseError,
> {
    match parse(src, goal, pos) {
        Ok((p, n)) => Ok((p->Select_0, n)),
        Err(e) => Err(e),
    }
}

/// The type that a word names in a column's definition, whatever its case.
pub open spec fn column_type(word: Seq<char>) -> Option<ColumnType> {
    let w = lower_text(word);
    if w == "integer"@ || w == "int"@ {
        Some(ColumnType::Integer)
    } else if w == "real"@ {
        Some(ColumnType::Real)
    } else if w == "text"@ || w == "varchar"@ {
        Some(ColumnType::Text)
    } else {
        None
    }
}

/// A column's definition: its name, its type, and `NOT NULL` if it is there.
pub open spec fn column_def(src: Source, pos: int) -> Result<(SpecColumnDef, nat), ParseError> {
    match src.name(pos) {
        None => Err(src.unexpected(pos)),
        Some(name) => match src.name(pos + 1) {
            None => Err(src.unexpected(pos + 1)),
            Some(word) => match column_type(word) {
                None => Err(src.unexpected(pos + 1)),
                Some(ty) => if src.keyword(pos + 2, Keyword::Not) {
                    if src.keyword(pos + 3, Keyword::Null) {
                        Ok((SpecColumnDef { name, ty, not_null: true }, 3nat))
                    } else {
                        Err(src.unexpected(pos + 3))
                    }
                } else {
                    Ok((SpecColumnDef { name, ty, not_null: false }, 1nat))
                },
            },
        },
    }
}

/// One or more column definitions with commas between them.
pub open spec fn column_defs(src: Source, pos: int) -> Result<(Seq<SpecColumnDef>, nat), ParseError>
    decreases src.left(pos),
{
    match column_def(src, pos) {
        Err(e) => Err(e),
        Ok((first, m)) => if src.peek(pos + 1 + m) == Some(Token::Comma) {
            match column_defs(src, pos + 2 + m) {
                Ok((rest, n)) => Ok((seq![first] + rest, m + n + 2)),
                Err(e) => Err(e),
            }
        } else {
            Ok((seq![first], m))
        },
    }
}

/// One or more parenthesised lists of expressions with commas between them.
pub open spec fn tuples(src: Source, pos: int) -> Result<(Seq<Seq<SpecExpr>>, nat), ParseError>
    decreases src.left(pos),
{
    if src.peek(pos) != Some(Token::LParen) {
        Err(src.unexpected(pos))
    } else {
        match parse(src, Goal::ExprList, pos + 1) {
            Err(e) => Err(e),
            Ok((row, m)) => match src.unclosed(pos, pos + 2 + m) {
                Some(e) => Err(e),
                None => if src.peek(pos + 3 + m) == Some(Token::Comma) {
                    match tuples(src, pos + 4 + m) {
                        Ok((rest, n)) => Ok((seq![row->Exprs_0] + rest, m + n + 4)),
                        Err(e) => Err(e),
                    }
                } else {
                    Ok((seq![row->Exprs_0], m + 2))
                },
            },
        }
    }
}

/// One or more `column = value` with commas between them.
pub open spec fn assignments(src: Source, pos: int) -> Result<
    (Seq<SpecAssignment>, nat),
    ParseError,
>
    decreases src.left(pos),
{
    match src.name(pos) {
        None => Err(src.unexpected(pos)),
        Some(column) => if src.peek(pos + 1) != Some(Token::Eq) {
            Err(src.unexpected(pos + 1))
        } else {
            match parse(src, Goal::Operand(0), pos + 2) {
                Err(e) => Err(e),
                Ok((value, m)) => {
                    let first = SpecAssignment { column, value: value->Expr_0 };
                    if src.peek(pos + 3 + m) == Some(Token::Comma) {
                        match assignments(src, pos + 4 + m) {
                            Ok((rest, n)) => Ok((seq![first] + rest, m + n + 4)),
                            Err(e) => Err(e),
                        }
                    } else {
                        Ok((seq![first], m + 2))
                    }
                },
            }
        },
    }
}

/// `CREATE TABLE name (definitions)`.
pub open spec fn create_table(src: Source) -> Result<(SpecStatement, nat), ParseError> {
    if !src.keyword(1, Keyword::Table) {
        Err(src.unexpected(1))
    } else {
        match src.name(2) {
            None => Err(src.unexpected(2)),
            Some(name) => if src.peek(3) != Some(Token::LParen) {
                Err(src.unexpected(3))
            } else {
                match column_defs(src, 4) {
                    Err(e) => Err(e),
                    Ok((columns, m)) => match src.unclosed(3, 5 + m as int) {
                        Some(e) => Err(e),
                        None => Ok((SpecStatement::CreateTable { name, columns }, m + 5)),
                    },
                }
            },
        }
    }
}

/// `DROP TABLE name`.
pub open spec fn drop_table(src: Source) -> Result<(SpecStatement, nat), ParseError> {
    if !src.keyword(1, Keyword::Table) {
        Err(src.unexpected(1))
    } else {
        match src.name(2) {
            None => Err(src.unexpected(2)),
            Some(name) => Ok((SpecStatement::DropTable { name }, 2nat)),
        }
    }
}

/// One or more names with commas between them.
pub open spec fn name_list(src: Source, pos: int) -> Result<(Seq<Seq<char>>, nat), ParseError>
    decreases src.left(pos),
{
    match src.name(pos) {
        None => Err(src.unexpected(pos)),
        Some(first) => if src.peek(pos + 1) == Some(Token::Comma) {
            match name_list(src, pos + 2) {
                Ok((rest, n)) => Ok((seq![first] + rest, n + 2)),
                Err(e) => Err(e),
            }
        } else {
            Ok((seq![first], 0nat))
        },
    }
}

/// The columns that an `INSERT` names in parentheses after its table, if it
/// names any, with the number of tokens that they take.
pub open spec fn insert_columns(src: Source, pos: int) -> Result<
    (Option<Seq<Seq<char>>>, nat),
    ParseError,
> {
    if src.peek(pos) == Some(Token::LParen) {
        match name_list(src, pos + 1) {
            Err(e) => Err(e),
            Ok((names, m)) => match src.unclosed(pos, pos + 2 + m) {
                Some(e) => Err(e),
                None => Ok((Some(names), m + 3)),
            },
        }
    } else {
        Ok((None, 0nat))
    }
}

/// `INSERT INTO name [(columns)] VALUES rows`.
pub open spec fn insert(src: Source) -> Result<(SpecStatement, nat), ParseError> {
    if !src.keyword(1, Keyword::Into) {
        Err(src.unexpected(1))
    } else {
        match src.name(2) {
            None => Err(src.unexpected(2)),
            Some(table) => match insert_columns(src, 3) {
                Err(e) => Err(e),
                Ok((columns, c)) => if !src.keyword(3 + c as int, Keyword::Values) {
                    Err(src.unexpected(3 + c as int))
                } else {
                    match tuples(src, 4 + c as int) {
                        Err(e) => Err(e),
                        Ok((rows, m)) => Ok(
                            (SpecStatement::Insert { table, names: columns, rows }, m + c + 4),
                        ),
                    }
                },
            },
        }
    }
}

/// `UPDATE name SET assignments [WHERE condition]`.
pub open spec fn update(src: Source) -> Result<(SpecStatement, nat), ParseError> {
    match src.name(1) {
        None => Err(src.unexpected(1)),
        Some(table) => if !src.keyword(2, Keyword::SetTo) {
            Err(src.unexpected(2))
        } else {
            match assignments(src, 3) {
                Err(e) => Err(e),
                Ok((list, m)) => match parse(src, Goal::Clause(Keyword::Where), 4 + m as int) {
                    Err(e) => Err(e),
                    Ok((filter, n)) => Ok(
                        (
                            SpecStatement::Update {
                                table,
                                assignments: list,
                                filter: filter->Optional_0,
                            },
                            m + n + 3,
                        ),
                    ),
                },
            }
        },
    }
}

/// `DELETE FROM name [WHERE condition]`.
pub open spec fn delete(src: Source) -> Result<(SpecStatement, nat), ParseError> {
    if !src.keyword(1, Keyword::From) {
        Err(src.unexpected(1))
    } else {
        match src.name(2) {
            None => Err(src.unexpected(2)),
            Some(table) => match parse(src, Goal::Clause(Keyword::Where), 3) {
                Err(e) => Err(e),
                Ok((filter, n)) => Ok(
                    (SpecStatement::Delete { table, filter: filter->Optional_0 }, n + 2),
                ),
            },
        }
    }
}

/// The statement that begins with the first token, by its first keyword.
pub open spec fn statement_head(src: Source) -> Result<(SpecStatement, nat), ParseError> {
    match src.peek(0) {
        None => Err(src.unexpected(0)),
        Some(Token::Keyword(Keyword::Select)) => match parse(src, Goal::Select, 0) {
            Ok((q, m)) => Ok((SpecStatement::Select(q->Select_0), m)),
            Err(e) => Err(e),
        },
        Some(Token::Keyword(Keyword::Create)) => create_table(src),
        Some(Token::Keyword(Keyword::Drop)) => drop_table(src),
        Some(Token::Keyword(Keyword::Insert)) => insert(src),
        Some(Token::Keyword(Keyword::Update)) => update(src),
        Some(Token::Keyword(Keyword::Delete)) => delete(src),
        Some(_) => Err(ParseError { position: src.at(0), kind: ParseErrorKind::UnknownKeyword }),
    }
}

/// The one statement that the tokens are: nothing may follow it.
pub open spec fn statement(src: Source) -> Result<SpecStatement, ParseError> {
    match statement_head(src) {
        Err(e) => Err(e),
        Ok((s, m)) => if src.peek(1 + m as int) is None {
            Ok(s)
        } else {
            Err(src.unexpected(1 + m as int))
        },
    }
}

/// The statement that a text is.
pub open spec fn parse_spec(chars: Seq<char>) -> Result<SpecStatement, ParseError> {
    match lex(chars) {
        Err(e) => Err(e),
        Ok(tokens) => statement(Source { chars, tokens }),
    }
}

} // verus!
