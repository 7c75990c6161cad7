//! The tokens of the SQL dialect.

use vstd::prelude::*;
use crate::text::is_text;

verus! {

/// The reserved words. They are recognised whatever their case.
#[derive(Clone, Copy, PartialEq, Eq, Structural, Debug)]
pub enum Keyword {
    Select,
    From,
    Where,
    Group,
    By,
    Having,
    Order,
    Asc,
    Desc,
    Limit,
    Insert,
    Into,
    Values,
    Create,
    Table,
    Drop,
    Update,
    SetTo,
    Delete,
    Inner,
    Left,
    Outer,
    Cross,
    Join,
    On,
    And,
    Or,
    Not,
    Is,
    Null,
    In,
    Exists,
    Case,
    When,
    Then,
    Else,
    End,
    As,
}

/// A token. A name or a text refers to the characters of the statement by
/// their indices: `start` is the first, `end` is one past the last. For a
/// quoted name or a text these lie between the quotes, and a doubled quote
/// among them stands for one.
#[derive(Clone, Copy, PartialEq, Eq, Structural, Debug)]
pub enum Token {
    Keyword(Keyword),
    Name { start: usize, end: usize },
    Integer(i64),
    /// A real literal, in thousandths.
    Real(i64),
    Text { start: usize, end: usize },
    Comma,
    LParen,
    RParen,
    Star,
    Plus,
    Minus,
    Slash,
    Dot,
    Eq,
    Ne,
    Lt,
    Le,
    Gt,
    Ge,
}

/// A token and the index of its first character.
#[derive(Clone, Copy, PartialEq, Eq, Structural, Debug)]
pub struct Lexeme {
    pub token: Token,
    pub pos: usize,
}

/// The reserved word that a lower-case word is, if it is one.
pub open spec fn keyword_of(w: Seq<char>) -> Option<Keyword> {
    if w == "select"@ {
        Some(Keyword::Select)
    } else if w == "from"@ {
        Some(Keyword::From)
    } else if w == "where"@ {
        Some(Keyword::Where)
    } else if w == "group"@ {
        Some(Keyword::Group)
    } else if w == "by"@ {
        Some(Keyword::By)
    } else if w == "having"@ {
        Some(Keyword::Having)
    } else if w == "order"@ {
        Some(Keyword::Order)
    } else if w == "asc"@ {
        Some(Keyword::Asc)
    } else if w == "desc"@ {
        Some(Keyword::Desc)
    } else if w == "limit"@ {
        Some(Keyword::Limit)
    } else if w == "insert"@ {
        Some(Keyword::Insert)
    } else if w == "into"@ {
        Some(Keyword::Into)
    } else if w == "values"@ {
        Some(Keyword::Values)
    } else if w == "create"@ {
        Some(Keyword::Create)
    } else if w == "table"@ {
        Some(Keyword::Table)
    } else if w == "drop"@ {
        Some(Keyword::Drop)
    } else if w == "update"@ {
        Some(Keyword::Update)
    } else if w == "set"@ {
        Some(Keyword::SetTo)
    } else if w == "delete"@ {
        Some(Keyword::Delete)
    } else if w == "inner"@ {
        Some(Keyword::Inner)
    } else if w == "left"@ {
        Some(Keyword::Left)
    } else if w == "outer"@ {
        Some(Keyword::Outer)
    } else if w == "cross"@ {
        Some(Keyword::Cross)
    } else if w == "join"@ {
        Some(Keyword::Join)
    } else if w == "on"@ {
        Some(Keyword::On)
    } else if w == "and"@ {
        Some(Keyword::And)
    } else if w == "or"@ {
        Some(Keyword::Or)
    } else if w == "not"@ {
        Some(Keyword::Not)
    } else if w == "is"@ {
        Some(Keyword::Is)
    } else if w == "null"@ {
        Some(Keyword::Null)
    } else if w == "in"@ {
        Some(Keyword::In)
    } else if w == "exists"@ {
        Some(Keyword::Exists)
    } else if w == "case"@ {
        Some(Keyword::Case)
    } else if w == "when"@ {
        Some(Keyword::When)
    } else if w == "then"@ {
        Some(Keyword::Then)
    } else if w == "else"@ {
        Some(Keyword::Else)
    } else if w == "end"@ {
        Some(Keyword::End)
    } else if w == "as"@ {
        Some(Keyword::As)
    } else {
        None
    }
}

/// The reserved word that a lower-case word is, if it is one.
pub fn keyword(w: &Vec<char>) -> (k: Option<Keyword>)
    ensures
        k == keyword_of(w@),
{
    if is_text(w, "select") {
        Some(Keyword::Select)
    } else if is_text(w, "from") {
        Some(Keyword::From)
    } else if is_text(w, "where") {
        Some(Keyword::Where)
    } else if is_text(w, "group") {
        Some(Keyword::Group)
    } else if is_text(w, "by") {
        Some(Keyword::By)
    } else if is_text(w, "having") {
        Some(Keyword::Having)
    } else if is_text(w, "order") {
        Some(Keyword::Order)
    } else if is_text(w, "asc") {
        Some(Keyword::Asc)
    } else if is_text(w, "desc") {
        Some(Keyword::Desc)
    } else if is_text(w, "limit") {
        Some(Keyword::Limit)
    } else if is_text(w, "insert") {
        Some(Keyword::Insert)
    } else if is_text(w, "into") {
        Some(Keyword::Into)
    } else if is_text(w, "values") {
        Some(Keyword::Values)
    } else if is_text(w, "create") {
        Some(Keyword::Create)
    } else if is_text(w, "table") {
        Some(Keyword::Table)
    } else if is_text(w, "drop") {
        Some(Keyword::Drop)
    } else if is_text(w, "update") {
        Some(Keyword::Update)
    } else if is_text(w, "set") {
        Some(Keyword::SetTo)
    } else if is_text(w, "delete") {
        Some(Keyword::Delete)
    } else if is_text(w, "inner") {
        Some(Keyword::Inner)
    } else if is_text(w, "left") {
        Some(Keyword::Left)
    } else if is_text(w, "outer") {
        Some(Keyword::Outer)
    } else if is_text(w, "cross") {
        Some(Keyword::Cross)
    } else if is_text(w, "join") {
        Some(Keyword::Join)
    } else if is_text(w, "on") {
        Some(Keyword::On)
    } else if is_text(w, "and") {
        Some(Keyword::And)
    } else if is_text(w, "or") {
        Some(Keyword::Or)
    } else if is_text(w, "not") {
        Some(Keyword::Not)
    } else if is_text(w, "is") {
        Some(Keyword::Is)
    } else if is_text(w, "null") {
        Some(Keyword::Null)
    } else if is_text(w, "in") {
        Some(Keyword::In)
    } else if is_text(w, "exists") {
        Some(Keyword::Exists)
    } else if is_text(w, "case") {
        Some(Keyword::Case)
    } else if is_text(w, "when") {
        Some(Keyword::When)
    } else if is_text(w, "then") {
        Some(Keyword::Then)
    } else if is_text(w, "else") {
        Some(Keyword::Else)
    } else if is_text(w, "end") {
        Some(Keyword::End)
    } else if is_text(w, "as") {
        Some(Keyword::As)
    } else {
        None
    }
}

} // verus!
