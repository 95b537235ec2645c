//! A tree-walking interpreter for the Lox language: scanner, parser,
//! resolver and evaluator, each stated against a mathematical model.
pub mod text;
pub mod token;
pub mod number;
pub mod table;
pub mod loxerr;
pub mod scanner;
pub mod respell;
pub mod expr;
pub mod stmt;
pub mod ast_printer;
pub mod grammar;
pub mod numbering;
pub mod fuel;
pub mod parser;
pub mod loxcallables;
pub mod class;
pub mod env;
pub mod instance;
pub mod semantics;
pub mod form;
pub mod counter;
pub mod interpreter;
pub mod resolver;
pub mod lox;
