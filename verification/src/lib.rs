pub mod text;
pub mod token;
pub mod lexer;
pub mod parser;
pub mod value;
pub mod env;
pub mod semantics;
pub mod interpreter;
pub mod repl;
