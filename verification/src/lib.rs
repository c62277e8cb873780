//! A small prototype-based language in which every value is an object and all computation is
//! the sending of messages: the syntax tree and its parser, the pool that owns the objects,
//! and the evaluator, with what each of them does stated as a contract.

pub mod depth;
pub mod eval;
pub mod lexer;
pub mod object;
pub mod parser;
pub mod semantics;
pub mod syntax;
pub mod text;
pub mod theorems;
