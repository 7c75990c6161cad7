//! An in-memory relational engine driven by SQL text.
//!
//! A statement is lexed ([`lexer`]) and parsed ([`parser`]) into a tree
//! ([`ast`]), and carried out ([`executor`]) against the tables
//! ([`storage`]); a query is evaluated row by row ([`query`],
//! [`evaluator`]). [`engine`] ties these together for the line protocol: a
//! statement's text goes in and the text of the response comes out.
//!
//! Every executable function is verified against a mathematical model of
//! what it computes: the grammar in [`grammar`], the meaning of expressions
//! and queries in [`semantics`], the value domain in [`value`]. The laws
//! that follow from the model, such as that a table gives back the rows that
//! were inserted into it and that a failed statement changes nothing, are
//! proved in [`laws`] and [`sort_laws`].

pub mod ast;
pub mod engine;
pub mod error;
pub mod evaluator;
pub mod executor;
pub mod functions;
pub mod grammar;
pub mod group;
pub mod laws;
pub mod lexer;
pub mod parser;
pub mod query;
pub mod relation;
pub mod scalar;
pub mod scope;
pub mod semantics;
pub mod sequence;
pub mod sort;
pub mod sort_laws;
pub mod storage;
pub mod text;
pub mod token;
pub mod value;
