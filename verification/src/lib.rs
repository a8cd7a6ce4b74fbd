pub mod token;
pub mod text;
pub mod scanner;
pub mod expr;
pub mod stmt;
pub mod parser;
pub mod resolver;
pub mod ast_printer;
pub mod interpreter;
