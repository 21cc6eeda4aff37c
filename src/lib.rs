//! A tree-walking interpreter for a small dynamically typed scripting
//! language: a scanner, a recursive-descent parser, a chain of variable
//! scopes and an evaluator, each with its behaviour stated as a contract.

pub mod number;
pub mod literal;
pub mod token;
pub mod expr;
pub mod stmt;
pub mod environment;
pub mod error;
pub mod scope;
pub mod interpreter;
pub mod keyword;
pub mod scanner;
pub mod parser;
pub mod ast_printer;
pub mod theorems;
pub mod runner;
